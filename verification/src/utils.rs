//! Helpers that pick robots out of a team: by distance, by identifier, by
//! side of a point.

use vstd::prelude::*;
use crate::math::Vec2;
use crate::world::Robot;

verus! {

/// Identifier of our goalkeeper.
pub const KEEPER_ID: u8 = 0;

/// Identifier of the goalkeeper of the other team.
pub const ENEMY_KEEPER_ID: u8 = 0;

/// Identifier of our first defender in set formations.
pub const DEFENDER1_ID: u8 = 1;

/// Identifier of our second defender in set formations.
pub const DEFENDER2_ID: u8 = 2;

/// Whether `id` occurs in `ids`.
pub fn contains_id(ids: &Vec<u8>, id: u8) -> (r: bool)
    ensures
        r == ids@.contains(id),
{
    let mut i: usize = 0;
    while i < ids.len()
        invariant
            0 <= i <= ids.len(),
            forall|k: int| 0 <= k < i ==> ids@[k] != id,
        decreases ids.len() - i,
    {
        if ids[i] == id {
            return true;
        }
        i += 1;
    }
    false
}

/// Position of the first robot of `bots` that no other is nearer to `point`
/// than, or 0 where there is no robot.
pub open spec fn spec_closest_index<'a, T>(bots: Seq<&'a Robot<T>>, point: Vec2) -> int
    decreases bots.len(),
{
    if bots.len() <= 1 {
        0
    } else {
        let best = spec_closest_index(bots.drop_last(), point);
        if bots.last().spec_dist2_to(point) < bots[best].spec_dist2_to(point) {
            bots.len() - 1
        } else {
            best
        }
    }
}

/// `spec_closest_index` is the first among the nearest.
pub proof fn lemma_closest_index<'a, T>(bots: Seq<&'a Robot<T>>, point: Vec2)
    requires
        bots.len() > 0,
    ensures
        0 <= spec_closest_index(bots, point) < bots.len(),
        forall|k: int|
            0 <= k < bots.len() ==> bots[spec_closest_index(bots, point)].spec_dist2_to(point)
                <= (#[trigger] bots[k]).spec_dist2_to(point),
        forall|k: int|
            0 <= k < spec_closest_index(bots, point) ==> bots[spec_closest_index(
                bots,
                point,
            )].spec_dist2_to(point) < (#[trigger] bots[k]).spec_dist2_to(point),
    decreases bots.len(),
{
    if bots.len() > 1 {
        lemma_closest_index(bots.drop_last(), point);
        let best = spec_closest_index(bots.drop_last(), point);
        assert(bots.drop_last()[best] == bots[best]);
        assert forall|k: int| 0 <= k < bots.len() - 1 implies bots.drop_last()[k] == bots[k] by {}
    }
}

/// The robot of `bots` nearest to `point`; among several at the same
/// distance, the first.
pub fn closest_bot_to_point<'a, T>(bots: Vec<&'a Robot<T>>, point: Vec2) -> (r: Option<
    &'a Robot<T>,
>)
    ensures
        bots@.len() == 0 ==> r is None,
        bots@.len() > 0 ==> r == Some(bots@[spec_closest_index(bots@, point)]),
        r matches Some(nearest) ==> {
            &&& 0 <= spec_closest_index(bots@, point) < bots@.len()
            &&& forall|k: int|
                0 <= k < bots@.len() ==> nearest.spec_dist2_to(point) <= (
                #[trigger] bots@[k]).spec_dist2_to(point)
            &&& forall|k: int|
                0 <= k < spec_closest_index(bots@, point) ==> nearest.spec_dist2_to(point) < (
                #[trigger] bots@[k]).spec_dist2_to(point)
        },
{
    if bots.len() == 0 {
        return None;
    }
    proof {
        lemma_closest_index(bots@, point);
    }
    let mut best: usize = 0;
    let mut best_d: i64 = bots[0].dist2_to(&point);
    let mut i: usize = 1;
    assert(bots@.take(1).len() == 1);
    while i < bots.len()
        invariant
            1 <= i <= bots.len(),
            best == spec_closest_index(bots@.take(i as int), point),
            0 <= best < i,
            best_d == bots@[best as int].spec_dist2_to(point),
        decreases bots.len() - i,
    {
        let d = bots[i].dist2_to(&point);
        proof {
            let next = bots@.take(i as int + 1);
            assert(next.drop_last() =~= bots@.take(i as int));
            assert(next.last() == bots@[i as int]);
            assert(next[best as int] == bots@[best as int]);
        }
        if d < best_d {
            best = i;
            best_d = d;
        }
        i += 1;
    }
    assert(bots@.take(bots.len() as int) =~= bots@);
    Some(bots[best])
}

/// `sorted` with `bot` put in behind every robot that is no farther from
/// `point` than it.
pub open spec fn spec_insert_by_distance<'a, T>(sorted: Seq<&'a Robot<T>>, bot: &'a Robot<T>, point: Vec2) -> Seq<
    &'a Robot<T>,
>
    decreases sorted.len(),
{
    if sorted.len() == 0 {
        seq![bot]
    } else if sorted.last().spec_dist2_to(point) <= bot.spec_dist2_to(point) {
        sorted.push(bot)
    } else {
        spec_insert_by_distance(sorted.drop_last(), bot, point).push(sorted.last())
    }
}

/// The robots of `bots` from the nearest to `point` to the farthest; robots
/// at the same distance keep the order they had.
pub open spec fn spec_closest_bots<'a, T>(bots: Seq<&'a Robot<T>>, point: Vec2) -> Seq<&'a Robot<T>>
    decreases bots.len(),
{
    if bots.len() == 0 {
        Seq::empty()
    } else {
        spec_insert_by_distance(spec_closest_bots(bots.drop_last(), point), bots.last(), point)
    }
}

/// The distances of `bots` to `point` never decrease along the sequence.
pub open spec fn ascending_by_distance<'a, T>(bots: Seq<&'a Robot<T>>, point: Vec2) -> bool {
    forall|i: int, j: int|
        0 <= i <= j < bots.len() ==> bots[i].spec_dist2_to(point) <= bots[j].spec_dist2_to(point)
}

/// Inserting by distance puts the robot at the place `at`, which is the one
/// behind the last robot that is no farther than it.
pub proof fn lemma_insert_by_distance_at<'a, T>(
    sorted: Seq<&'a Robot<T>>,
    bot: &'a Robot<T>,
    point: Vec2,
    at: int,
)
    requires
        0 <= at <= sorted.len(),
        at > 0 ==> sorted[at - 1].spec_dist2_to(point) <= bot.spec_dist2_to(point),
        forall|k: int|
            at <= k < sorted.len() ==> (#[trigger] sorted[k]).spec_dist2_to(point)
                > bot.spec_dist2_to(point),
    ensures
        spec_insert_by_distance(sorted, bot, point) == sorted.insert(at, bot),
    decreases sorted.len(),
{
    if sorted.len() == 0 {
        assert(sorted.insert(0, bot) =~= seq![bot]);
    } else if at == sorted.len() {
        assert(sorted.insert(at, bot) =~= sorted.push(bot));
    } else {
        lemma_insert_by_distance_at(sorted.drop_last(), bot, point, at);
        assert(sorted.drop_last().insert(at, bot).push(sorted.last()) =~= sorted.insert(at, bot));
    }
}

/// Inserting by distance keeps an ascending sequence ascending, keeps every
/// robot and adds the new one.
pub proof fn lemma_insert_by_distance<'a, T>(sorted: Seq<&'a Robot<T>>, bot: &'a Robot<T>, point: Vec2)
    requires
        ascending_by_distance(sorted, point),
    ensures
        ascending_by_distance(spec_insert_by_distance(sorted, bot, point), point),
        spec_insert_by_distance(sorted, bot, point).to_multiset() == sorted.to_multiset().insert(
            bot,
        ),
        spec_insert_by_distance(sorted, bot, point).len() == sorted.len() + 1,
    decreases sorted.len(),
{
    broadcast use vstd::seq_lib::group_to_multiset_ensures;

    if sorted.len() == 0 {
        assert(seq![bot] =~= Seq::<&'a Robot<T>>::empty().push(bot));
        assert(sorted =~= Seq::<&'a Robot<T>>::empty());
    } else if sorted.last().spec_dist2_to(point) <= bot.spec_dist2_to(point) {
    } else {
        let rest = sorted.drop_last();
        lemma_insert_by_distance(rest, bot, point);
        let ins = spec_insert_by_distance(rest, bot, point);
        let out = ins.push(sorted.last());
        assert(sorted =~= rest.push(sorted.last()));
        assert forall|i: int, j: int| 0 <= i <= j < out.len() implies out[i].spec_dist2_to(point)
            <= out[j].spec_dist2_to(point) by {
            if j == out.len() - 1 && i < j {
                // every robot of `ins` is `bot` or a robot of `rest`
                assert(ins.to_multiset().count(ins[i]) > 0);
                if ins[i] != bot {
                    assert(rest.to_multiset().count(ins[i]) > 0);
                    let k = choose|k: int| 0 <= k < rest.len() && rest[k] == ins[i];
                    assert(sorted[k] == rest[k]);
                }
            }
        }
    }
}

/// Sorting by distance gives an ascending sequence of the same robots.
pub proof fn lemma_closest_bots<'a, T>(bots: Seq<&'a Robot<T>>, point: Vec2)
    ensures
        ascending_by_distance(spec_closest_bots(bots, point), point),
        spec_closest_bots(bots, point).to_multiset() == bots.to_multiset(),
        spec_closest_bots(bots, point).len() == bots.len(),
    decreases bots.len(),
{
    broadcast use vstd::seq_lib::group_to_multiset_ensures;

    if bots.len() == 0 {
        assert(bots =~= Seq::empty());
    } else {
        lemma_closest_bots(bots.drop_last(), point);
        lemma_insert_by_distance(spec_closest_bots(bots.drop_last(), point), bots.last(), point);
        assert(bots =~= bots.drop_last().push(bots.last()));
    }
}

/// The robots of `bots` from the nearest to `point` to the farthest; robots
/// at the same distance keep the order they had.
pub fn closest_bots_to_point<'a, T>(bots: Vec<&'a Robot<T>>, point: Vec2) -> (r: Vec<
    &'a Robot<T>,
>)
    ensures
        r@ == spec_closest_bots(bots@, point),
        ascending_by_distance(r@, point),
        r@.to_multiset() == bots@.to_multiset(),
        r@.len() == bots@.len(),
{
    let mut out: Vec<&'a Robot<T>> = Vec::new();
    let mut i: usize = 0;
    while i < bots.len()
        invariant
            0 <= i <= bots.len(),
            out@ == spec_closest_bots(bots@.take(i as int), point),
            out@.len() == i,
        decreases bots.len() - i,
    {
        let bot = bots[i];
        let d = bot.dist2_to(&point);
        let mut at: usize = out.len();
        while at > 0 && out[at - 1].dist2_to(&point) > d
            invariant
                0 <= at <= out.len(),
                d == bot.spec_dist2_to(point),
                forall|k: int|
                    at <= k < out.len() ==> (#[trigger] out@[k]).spec_dist2_to(point) > d,
            decreases at,
        {
            at -= 1;
        }
        proof {
            lemma_insert_by_distance_at(out@, bot, point, at as int);
            let next = bots@.take(i as int + 1);
            assert(next.drop_last() =~= bots@.take(i as int));
            assert(next.last() == bot);
        }
        out.insert(at, bot);
        i += 1;
    }
    proof {
        assert(bots@.take(bots.len() as int) =~= bots@);
        lemma_closest_bots(bots@, point);
    }
    out
}

/// The robots of `robots` whose identifier occurs in `ids`, in order.
pub open spec fn spec_filter_robots_in_ids<'a, T>(robots: Seq<&'a Robot<T>>, ids: Seq<u8>) -> Seq<
    &'a Robot<T>,
> {
    robots.filter(|r: &Robot<T>| ids.contains(r.id))
}

/// The robots of `robots` whose identifier does not occur in `ids`, in order.
pub open spec fn spec_filter_robots_not_in_ids<'a, T>(robots: Seq<&'a Robot<T>>, ids: Seq<u8>) -> Seq<
    &'a Robot<T>,
> {
    robots.filter(|r: &Robot<T>| !ids.contains(r.id))
}

/// The robots of `robots` that stand where `x` is less than at `point`, in
/// order.
pub open spec fn spec_filter_robots_behind_point<'a, T>(robots: Seq<&'a Robot<T>>, point: Vec2) -> Seq<
    &'a Robot<T>,
> {
    robots.filter(|r: &Robot<T>| r.pose.position.sx() < point.sx())
}

/// The robots of `robots` whose identifier occurs in `ids`, in order.
pub fn filter_robots_in_ids<'a, T>(robots: Vec<&'a Robot<T>>, ids: &Vec<u8>) -> (r: Vec<
    &'a Robot<T>,
>)
    ensures
        r@ == spec_filter_robots_in_ids(robots@, ids@),
{
    let mut out: Vec<&'a Robot<T>> = Vec::new();
    let mut i: usize = 0;
    let ghost keep = |r: &Robot<T>| ids@.contains(r.id);
    while i < robots.len()
        invariant
            0 <= i <= robots.len(),
            keep == |r: &Robot<T>| ids@.contains(r.id),
            out@ == robots@.take(i as int).filter(keep),
        decreases robots.len() - i,
    {
        proof {
            assert(robots@.take(i as int + 1).drop_last() =~= robots@.take(i as int));
            reveal(Seq::filter);
        }
        if contains_id(ids, robots[i].id) {
            out.push(robots[i]);
        }
        i += 1;
    }
    assert(robots@.take(robots.len() as int) =~= robots@);
    out
}

/// The robots of `robots` whose identifier does not occur in `ids`, in order.
pub fn filter_robots_not_in_ids<'a, T>(robots: Vec<&'a Robot<T>>, ids: &Vec<u8>) -> (r: Vec<
    &'a Robot<T>,
>)
    ensures
        r@ == spec_filter_robots_not_in_ids(robots@, ids@),
{
    let mut out: Vec<&'a Robot<T>> = Vec::new();
    let mut i: usize = 0;
    let ghost keep = |r: &Robot<T>| !ids@.contains(r.id);
    while i < robots.len()
        invariant
            0 <= i <= robots.len(),
            keep == |r: &Robot<T>| !ids@.contains(r.id),
            out@ == robots@.take(i as int).filter(keep),
        decreases robots.len() - i,
    {
        proof {
            assert(robots@.take(i as int + 1).drop_last() =~= robots@.take(i as int));
            reveal(Seq::filter);
        }
        if !contains_id(ids, robots[i].id) {
            out.push(robots[i]);
        }
        i += 1;
    }
    assert(robots@.take(robots.len() as int) =~= robots@);
    out
}

/// The robots of `robots` that stand where `x` is less than at `point`, in
/// order.
pub fn filter_robots_behind_point<'a, T>(robots: Vec<&'a Robot<T>>, point: &Vec2) -> (r: Vec<
    &'a Robot<T>,
>)
    ensures
        r@ == spec_filter_robots_behind_point(robots@, *point),
{
    let mut out: Vec<&'a Robot<T>> = Vec::new();
    let mut i: usize = 0;
    let ghost keep = |r: &Robot<T>| r.pose.position.sx() < point.sx();
    while i < robots.len()
        invariant
            0 <= i <= robots.len(),
            keep == |r: &Robot<T>| r.pose.position.sx() < point.sx(),
            out@ == robots@.take(i as int).filter(keep),
        decreases robots.len() - i,
    {
        proof {
            assert(robots@.take(i as int + 1).drop_last() =~= robots@.take(i as int));
            reveal(Seq::filter);
        }
        if robots[i].pose.position.x() < point.x() {
            out.push(robots[i]);
        }
        i += 1;
    }
    assert(robots@.take(robots.len() as int) =~= robots@);
    out
}

/// The robots of `robots`, in order, each behind a reference.
pub open spec fn spec_refs<'a, T>(robots: Seq<Robot<T>>) -> Seq<&'a Robot<T>> {
    Seq::new(robots.len(), |i: int| &robots[i])
}

/// References to the robots of `robots`, in order.
pub fn collect_refs<'a, T>(robots: &'a Vec<Robot<T>>) -> (r: Vec<&'a Robot<T>>)
    ensures
        r@ == spec_refs::<T>(robots@),
        r@.len() == robots@.len(),
        forall|i: int| 0 <= i < robots@.len() ==> *r@[i] == robots@[i],
{
    let mut out: Vec<&'a Robot<T>> = Vec::new();
    let mut i: usize = 0;
    while i < robots.len()
        invariant
            0 <= i <= robots.len(),
            out@.len() == i,
            forall|k: int| 0 <= k < i ==> *out@[k] == robots@[k],
        decreases robots.len() - i,
    {
        out.push(&robots[i]);
        i += 1;
    }
    assert(out@ =~= spec_refs::<T>(robots@));
    out
}

/// The same references, in another vector.
pub fn copy_refs<'a, T>(robots: &Vec<&'a Robot<T>>) -> (r: Vec<&'a Robot<T>>)
    ensures
        r@ == robots@,
{
    let mut out: Vec<&'a Robot<T>> = Vec::new();
    let mut i: usize = 0;
    while i < robots.len()
        invariant
            0 <= i <= robots.len(),
            out@ == robots@.take(i as int),
        decreases robots.len() - i,
    {
        out.push(robots[i]);
        assert(robots@.take(i as int + 1) =~= robots@.take(i as int).push(robots@[i as int]));
        i += 1;
    }
    assert(robots@.take(robots.len() as int) =~= robots@);
    out
}

/// None of `bots` bears the identifier `id`.
pub open spec fn none_is<'a, T>(bots: Seq<&'a Robot<T>>, id: u8) -> bool {
    forall|k: int| 0 <= k < bots.len() ==> (#[trigger] bots[k]).id != id
}

/// What is filtered out by identifier is gone, and what was not there does
/// not come.
pub proof fn lemma_not_in_ids_none<'a, T>(robots: Seq<&'a Robot<T>>, ids: Seq<u8>, id: u8)
    ensures
        ids.contains(id) ==> none_is(spec_filter_robots_not_in_ids(robots, ids), id),
        none_is(robots, id) ==> none_is(spec_filter_robots_not_in_ids(robots, ids), id),
    decreases robots.len(),
{
    reveal(Seq::filter);
    if robots.len() > 0 {
        lemma_not_in_ids_none(robots.drop_last(), ids, id);
        let before = spec_filter_robots_not_in_ids(robots.drop_last(), ids);
        let out = spec_filter_robots_not_in_ids(robots, ids);
        if none_is(robots, id) {
            assert forall|k: int| 0 <= k < robots.drop_last().len() implies (
            #[trigger] robots.drop_last()[k]).id != id by {
                assert(robots.drop_last()[k] == robots[k]);
            }
            assert(robots[robots.len() - 1].id != id);
        }
        assert forall|k: int| 0 <= k < out.len() && (ids.contains(id) || none_is(robots, id))
            implies (#[trigger] out[k]).id != id by {
            if k < before.len() {
                assert(out[k] == before[k]);
            } else {
                assert(out[k] == robots.last());
            }
        }
    }
}

/// Sorting by distance brings no identifier that was not there.
pub proof fn lemma_closest_none<'a, T>(bots: Seq<&'a Robot<T>>, point: Vec2, id: u8)
    requires
        none_is(bots, id),
    ensures
        none_is(spec_closest_bots(bots, point), id),
    decreases bots.len(),
{
    if bots.len() > 0 {
        assert forall|k: int| 0 <= k < bots.drop_last().len() implies (
        #[trigger] bots.drop_last()[k]).id != id by {
            assert(bots.drop_last()[k] == bots[k]);
        }
        lemma_closest_none(bots.drop_last(), point, id);
        assert(bots[bots.len() - 1].id != id);
        lemma_insert_none(spec_closest_bots(bots.drop_last(), point), bots.last(), point, id);
    }
}

/// Inserting by distance brings no identifier but that of the robot put in.
pub proof fn lemma_insert_none<'a, T>(
    sorted: Seq<&'a Robot<T>>,
    bot: &'a Robot<T>,
    point: Vec2,
    id: u8,
)
    requires
        none_is(sorted, id),
        bot.id != id,
    ensures
        none_is(spec_insert_by_distance(sorted, bot, point), id),
    decreases sorted.len(),
{
    if sorted.len() > 0 && !(sorted.last().spec_dist2_to(point) <= bot.spec_dist2_to(point)) {
        assert forall|k: int| 0 <= k < sorted.drop_last().len() implies (
        #[trigger] sorted.drop_last()[k]).id != id by {
            assert(sorted.drop_last()[k] == sorted[k]);
        }
        lemma_insert_none(sorted.drop_last(), bot, point, id);
        assert(sorted[sorted.len() - 1].id != id);
    }
}

/// No identifier occurs twice among `bots`.
pub open spec fn distinct_refs<'a, T>(bots: Seq<&'a Robot<T>>) -> bool {
    forall|i: int, j: int| 0 <= i < j < bots.len() ==> bots[i].id != bots[j].id
}

/// Each of `bots` is a robot of `team`.
pub open spec fn all_of<'a, T>(bots: Seq<&'a Robot<T>>, team: Seq<Robot<T>>) -> bool {
    forall|k: int| 0 <= k < bots.len() ==> team.contains(*#[trigger] bots[k])
}

/// The references to a team are robots of the team, and name no robot twice
/// if the team does not.
pub proof fn lemma_refs<'a, T>(team: Seq<Robot<T>>)
    ensures
        all_of(spec_refs::<T>(team), team),
        crate::world::distinct_ids(team) ==> distinct_refs(spec_refs::<T>(team)),
{
    assert forall|k: int| 0 <= k < spec_refs::<T>(team).len() implies team.contains(
        *#[trigger] spec_refs::<T>(team)[k],
    ) by {
        assert(team[k] == *spec_refs::<T>(team)[k]);
    }
}

/// A robot of a team without repetition is the robot that the team has
/// under its identifier.
pub proof fn lemma_robot_in<T>(team: Seq<Robot<T>>, robot: Robot<T>)
    requires
        crate::world::distinct_ids(team),
        team.contains(robot),
    ensures
        crate::world::spec_robot_in(team, robot.id) == Some(robot),
{
    crate::world::lemma_position_of(team, robot.id);
    let at = choose|at: int| 0 <= at < team.len() && team[at] == robot;
    let p = crate::world::spec_position_of(team, robot.id);
    if p < at {
        assert(team[p].id != team[at].id);
    }
}

/// The robot that a team has under an identifier is a robot of the team and
/// bears the identifier.
pub proof fn lemma_robot_found<T>(team: Seq<Robot<T>>, id: u8)
    requires
        crate::world::spec_robot_in(team, id) is Some,
    ensures
        team.contains(crate::world::spec_robot_in(team, id).unwrap()),
        crate::world::spec_robot_in(team, id).unwrap().id == id,
{
    crate::world::lemma_position_of(team, id);
    let p = crate::world::spec_position_of(team, id);
    assert(team[p] == crate::world::spec_robot_in(team, id).unwrap());
}

/// Filtering by identifier keeps what is not named, brings nothing new and
/// no repetition.
pub proof fn lemma_not_in_ids<'a, T>(robots: Seq<&'a Robot<T>>, ids: Seq<u8>)
    ensures
        forall|k: int|
            0 <= k < spec_filter_robots_not_in_ids(robots, ids).len() ==> robots.contains(
                #[trigger] spec_filter_robots_not_in_ids(robots, ids)[k],
            ),
        forall|k: int|
            0 <= k < robots.len() && !ids.contains((#[trigger] robots[k]).id)
                ==> spec_filter_robots_not_in_ids(robots, ids).contains(robots[k]),
        distinct_refs(robots) ==> distinct_refs(spec_filter_robots_not_in_ids(robots, ids)),
    decreases robots.len(),
{
    reveal(Seq::filter);
    if robots.len() > 0 {
        let rest = robots.drop_last();
        let last = robots.last();
        lemma_not_in_ids(rest, ids);
        let before = spec_filter_robots_not_in_ids(rest, ids);
        let out = spec_filter_robots_not_in_ids(robots, ids);
        assert forall|k: int| 0 <= k < out.len() implies robots.contains(#[trigger] out[k]) by {
            if k < before.len() {
                assert(out[k] == before[k]);
                let j = choose|j: int| 0 <= j < rest.len() && rest[j] == before[k];
                assert(robots[j] == out[k]);
            } else {
                assert(robots[robots.len() - 1] == out[k]);
            }
        }
        assert forall|k: int| 0 <= k < robots.len() && !ids.contains((#[trigger] robots[k]).id)
            implies out.contains(robots[k]) by {
            if k < rest.len() {
                assert(rest[k] == robots[k]);
                let j = choose|j: int| 0 <= j < before.len() && before[j] == rest[k];
                assert(out[j] == robots[k]);
            } else {
                assert(out[out.len() - 1] == robots[k]);
            }
        }
        if distinct_refs(robots) {
            assert(distinct_refs(rest)) by {
                assert forall|i: int, j: int| 0 <= i < j < rest.len() implies rest[i].id
                    != rest[j].id by {
                    assert(robots[i].id != robots[j].id);
                }
            }
            assert forall|i: int, j: int| 0 <= i < j < out.len() implies out[i].id
                != out[j].id by {
                if j < before.len() {
                    assert(before[i].id != before[j].id);
                } else {
                    let w = choose|w: int| 0 <= w < rest.len() && rest[w] == before[i];
                    assert(robots[w].id != robots[robots.len() - 1].id);
                }
            }
        }
    }
}

/// Inserting by distance a robot that is not there brings no repetition.
pub proof fn lemma_insert_distinct<'a, T>(sorted: Seq<&'a Robot<T>>, bot: &'a Robot<T>, point: Vec2)
    requires
        distinct_refs(sorted),
        none_is(sorted, bot.id),
    ensures
        distinct_refs(spec_insert_by_distance(sorted, bot, point)),
    decreases sorted.len(),
{
    if sorted.len() > 0 && !(sorted.last().spec_dist2_to(point) <= bot.spec_dist2_to(point)) {
        let rest = sorted.drop_last();
        assert(distinct_refs(rest) && none_is(rest, bot.id) && none_is(rest, sorted.last().id)) by {
            assert forall|i: int| 0 <= i < rest.len() implies (#[trigger] rest[i]).id != bot.id
                && rest[i].id != sorted.last().id by {
                assert(sorted[i].id != bot.id);
                assert(sorted[i].id != sorted[sorted.len() - 1].id);
            }
            assert forall|i: int, j: int| 0 <= i < j < rest.len() implies rest[i].id
                != rest[j].id by {
                assert(sorted[i].id != sorted[j].id);
            }
        }
        lemma_insert_distinct(rest, bot, point);
        assert(sorted[sorted.len() - 1].id != bot.id);
        lemma_insert_none(rest, bot, point, sorted.last().id);
    }
}

/// Sorting by distance brings no repetition.
pub proof fn lemma_closest_distinct<'a, T>(bots: Seq<&'a Robot<T>>, point: Vec2)
    requires
        distinct_refs(bots),
    ensures
        distinct_refs(spec_closest_bots(bots, point)),
    decreases bots.len(),
{
    if bots.len() > 0 {
        let rest = bots.drop_last();
        assert(distinct_refs(rest) && none_is(rest, bots.last().id)) by {
            assert forall|i: int| 0 <= i < rest.len() implies (#[trigger] rest[i]).id
                != bots.last().id by {
                assert(bots[i].id != bots[bots.len() - 1].id);
            }
            assert forall|i: int, j: int| 0 <= i < j < rest.len() implies rest[i].id
                != rest[j].id by {
                assert(bots[i].id != bots[j].id);
            }
        }
        lemma_closest_distinct(rest, point);
        lemma_closest_none(rest, point, bots.last().id);
        lemma_insert_distinct(spec_closest_bots(rest, point), bots.last(), point);
    }
}

/// Sorting by distance gives the robots that were there and no other.
pub proof fn lemma_closest_same<'a, T>(bots: Seq<&'a Robot<T>>, point: Vec2)
    ensures
        forall|k: int|
            0 <= k < spec_closest_bots(bots, point).len() ==> bots.contains(
                #[trigger] spec_closest_bots(bots, point)[k],
            ),
        forall|k: int|
            0 <= k < bots.len() ==> spec_closest_bots(bots, point).contains(#[trigger] bots[k]),
{
    broadcast use vstd::seq_lib::group_to_multiset_ensures;

    lemma_closest_bots(bots, point);
    let out = spec_closest_bots(bots, point);
    assert forall|k: int| 0 <= k < out.len() implies bots.contains(#[trigger] out[k]) by {
        assert(out.to_multiset().count(out[k]) > 0);
        assert(bots.to_multiset().count(out[k]) > 0);
    }
    assert forall|k: int| 0 <= k < bots.len() implies out.contains(#[trigger] bots[k]) by {
        assert(bots.to_multiset().count(bots[k]) > 0);
        assert(out.to_multiset().count(bots[k]) > 0);
    }
}

/// A team has a robot under the identifier of each of its robots.
pub proof fn lemma_robot_present<T>(team: Seq<Robot<T>>, robot: Robot<T>)
    requires
        team.contains(robot),
    ensures
        crate::world::spec_robot_in(team, robot.id) is Some,
{
    crate::world::lemma_position_of(team, robot.id);
    let at = choose|at: int| 0 <= at < team.len() && team[at] == robot;
    assert(team[at].id == robot.id);
}

/// Filtering by place keeps the robots that stand behind the point, and
/// brings nothing else.
pub proof fn lemma_behind_point<'a, T>(robots: Seq<&'a Robot<T>>, point: Vec2)
    ensures
        forall|k: int|
            0 <= k < spec_filter_robots_behind_point(robots, point).len() ==> robots.contains(
                #[trigger] spec_filter_robots_behind_point(robots, point)[k],
            ) && spec_filter_robots_behind_point(robots, point)[k].pose.position.sx() < point.sx(),
        forall|k: int|
            0 <= k < robots.len() && (#[trigger] robots[k]).pose.position.sx() < point.sx()
                ==> spec_filter_robots_behind_point(robots, point).contains(robots[k]),
    decreases robots.len(),
{
    reveal(Seq::filter);
    if robots.len() > 0 {
        let rest = robots.drop_last();
        lemma_behind_point(rest, point);
        let before = spec_filter_robots_behind_point(rest, point);
        let out = spec_filter_robots_behind_point(robots, point);
        assert forall|k: int| 0 <= k < out.len() implies robots.contains(#[trigger] out[k])
            && out[k].pose.position.sx() < point.sx() by {
            if k < before.len() {
                assert(out[k] == before[k]);
                let j = choose|j: int| 0 <= j < rest.len() && rest[j] == before[k];
                assert(robots[j] == out[k]);
            } else {
                assert(robots[robots.len() - 1] == out[k]);
            }
        }
        assert forall|k: int|
            0 <= k < robots.len() && (#[trigger] robots[k]).pose.position.sx()
                < point.sx() implies out.contains(robots[k]) by {
            if k < rest.len() {
                assert(rest[k] == robots[k]);
                let j = choose|j: int| 0 <= j < before.len() && before[j] == rest[k];
                assert(out[j] == robots[k]);
            } else {
                assert(out[out.len() - 1] == robots[k]);
            }
        }
    }
}

/// Robots in ascending order of distance stay in that order when they are
/// filtered by identifier or by place.
pub proof fn lemma_filters_ascending<'a, T>(
    robots: Seq<&'a Robot<T>>,
    ids: Seq<u8>,
    behind: Vec2,
    point: Vec2,
)
    requires
        ascending_by_distance(robots, point),
    ensures
        ascending_by_distance(spec_filter_robots_not_in_ids(robots, ids), point),
        ascending_by_distance(spec_filter_robots_behind_point(robots, behind), point),
    decreases robots.len(),
{
    reveal(Seq::filter);
    if robots.len() > 0 {
        let rest = robots.drop_last();
        assert(ascending_by_distance(rest, point)) by {
            assert forall|i: int, j: int| 0 <= i <= j < rest.len() implies rest[i].spec_dist2_to(
                point,
            ) <= rest[j].spec_dist2_to(point) by {
                assert(robots[i].spec_dist2_to(point) <= robots[j].spec_dist2_to(point));
            }
        }
        lemma_filters_ascending(rest, ids, behind, point);
        lemma_not_in_ids(rest, ids);
        lemma_behind_point(rest, behind);
        let named = spec_filter_robots_not_in_ids(rest, ids);
        let out = spec_filter_robots_not_in_ids(robots, ids);
        assert forall|i: int, j: int| 0 <= i <= j < out.len() implies out[i].spec_dist2_to(point)
            <= out[j].spec_dist2_to(point) by {
            if j < named.len() {
                assert(named[i].spec_dist2_to(point) <= named[j].spec_dist2_to(point));
            } else if i < j {
                let w = choose|w: int| 0 <= w < rest.len() && rest[w] == named[i];
                assert(robots[w].spec_dist2_to(point) <= robots[robots.len() - 1].spec_dist2_to(
                    point,
                ));
            }
        }
        let placed = spec_filter_robots_behind_point(rest, behind);
        let side = spec_filter_robots_behind_point(robots, behind);
        assert forall|i: int, j: int| 0 <= i <= j < side.len() implies side[i].spec_dist2_to(
            point,
        ) <= side[j].spec_dist2_to(point) by {
            if j < placed.len() {
                assert(placed[i].spec_dist2_to(point) <= placed[j].spec_dist2_to(point));
            } else if i < j {
                let w = choose|w: int| 0 <= w < rest.len() && rest[w] == placed[i];
                assert(robots[w].spec_dist2_to(point) <= robots[robots.len() - 1].spec_dist2_to(
                    point,
                ));
            }
        }
    }
}

/// Robots of a team that are filtered by identifier or by place, or sorted
/// by distance, are robots of the team.
pub proof fn lemma_all_of<'a, T>(
    bots: Seq<&'a Robot<T>>,
    team: Seq<Robot<T>>,
    ids: Seq<u8>,
    point: Vec2,
)
    requires
        all_of(bots, team),
    ensures
        all_of(spec_filter_robots_not_in_ids(bots, ids), team),
        all_of(spec_filter_robots_behind_point(bots, point), team),
        all_of(spec_closest_bots(bots, point), team),
{
    lemma_not_in_ids(bots, ids);
    lemma_behind_point(bots, point);
    lemma_closest_same(bots, point);
    let named = spec_filter_robots_not_in_ids(bots, ids);
    assert forall|k: int| 0 <= k < named.len() implies team.contains(*#[trigger] named[k]) by {
        let j = choose|j: int| 0 <= j < bots.len() && bots[j] == named[k];
        assert(team.contains(*bots[j]));
    }
    let behind = spec_filter_robots_behind_point(bots, point);
    assert forall|k: int| 0 <= k < behind.len() implies team.contains(*#[trigger] behind[k]) by {
        let j = choose|j: int| 0 <= j < bots.len() && bots[j] == behind[k];
        assert(team.contains(*bots[j]));
    }
    let sorted = spec_closest_bots(bots, point);
    assert forall|k: int| 0 <= k < sorted.len() implies team.contains(*#[trigger] sorted[k]) by {
        let j = choose|j: int| 0 <= j < bots.len() && bots[j] == sorted[k];
        assert(team.contains(*bots[j]));
    }
}

} // verus!
