//! The parts of the enemy goal line that a shooter can see: the goal line
//! less the shadow that each enemy robot casts on it.

use vstd::prelude::*;
use crate::math::isqrt;
use crate::math::lemma_mul_bound;
use crate::math::magnitude;
use crate::math::spec_abs;
use crate::math::spec_isqrt;
use crate::math::trunc_div;
use crate::math::trunc_quot;
use crate::math::Delta;
use crate::math::Line;
use crate::math::Vec2;
use crate::math::LIMIT;
use crate::world::EnemyInfo;
use crate::world::Geometry;
use crate::world::Robot;
use crate::world::World;

verus! {

/// What is added to the radii of a robot and of the ball to get the half
/// width of the obstacle that an enemy robot is to a shot (0.01 m).
pub const SHADOW_MARGIN: u32 = 10_000;

/// How many times farther than the enemy robot its shadow still falls.
pub const SHADOW_REACH: i64 = 100;

/// Half the width of the obstacle that an enemy robot is to a shot.
pub open spec fn spec_shadow_radius(geometry: Geometry) -> int {
    let r = geometry.robot_radius + geometry.ball_radius + SHADOW_MARGIN;
    if r > LIMIT {
        LIMIT as int
    } else {
        r
    }
}

/// Half the width of the obstacle that an enemy robot is to a shot.
pub fn shadow_radius(geometry: &Geometry) -> (r: i64)
    ensures
        r == spec_shadow_radius(*geometry),
        0 <= r <= LIMIT,
{
    let r = geometry.robot_radius as i64 + geometry.ball_radius as i64 + SHADOW_MARGIN as i64;
    if r > LIMIT as i64 {
        LIMIT as i64
    } else {
        r
    }
}

/// The directions from `start` to the two sides of the obstacle at `enemy`:
/// first the side a quarter turn to the left of the way to `enemy`, then the
/// other. None where the obstacle stands on `start`.
pub open spec fn spec_shadow_dirs(start: Vec2, enemy: Vec2, radius: int) -> Option<(Delta, Delta)> {
    let d = start.spec_delta_to(enemy);
    let n = spec_isqrt(d.spec_norm2());
    if n == 0 {
        None
    } else {
        let px = trunc_div(-d.dy * radius, n);
        let py = trunc_div(d.dx * radius, n);
        Some(
            (
                Delta { dx: (d.dx + px) as i64, dy: (d.dy + py) as i64 },
                Delta { dx: (d.dx - px) as i64, dy: (d.dy - py) as i64 },
            ),
        )
    }
}

/// A direction that `shadow_dirs` can give.
pub open spec fn shadow_dir_bounded(dir: Delta) -> bool {
    &&& -30_000_000_000_000_000 <= dir.dx <= 30_000_000_000_000_000
    &&& -30_000_000_000_000_000 <= dir.dy <= 30_000_000_000_000_000
}

/// The directions from `start` to the two sides of the obstacle at `enemy`.
pub fn shadow_dirs(start: &Vec2, enemy: &Vec2, radius: i64) -> (r: Option<(Delta, Delta)>)
    requires
        0 <= radius <= LIMIT,
    ensures
        r == spec_shadow_dirs(*start, *enemy, radius as int),
        r matches Some((left, right)) ==> shadow_dir_bounded(left) && shadow_dir_bounded(right),
{
    let d = start.delta_to(enemy);
    let n = isqrt(d.norm2() as u64);
    if n == 0 {
        return None;
    }
    proof {
        lemma_mul_bound(-d.dy as int, radius as int, 200_000_000, 100_000_000);
        lemma_mul_bound(d.dx as int, radius as int, 200_000_000, 100_000_000);
    }
    let px = trunc_quot((-d.dy) as i128 * radius as i128, n as i128) as i64;
    let py = trunc_quot(d.dx as i128 * radius as i128, n as i128) as i64;
    Some((Delta { dx: d.dx + px, dy: d.dy + py }, Delta { dx: d.dx - px, dy: d.dy - py }))
}

/// Where the stretch that leaves `start` along `dir` and ends
/// [`SHADOW_REACH`] times `dir` away meets the line of the points whose first
/// coordinate is `gx`.
pub open spec fn spec_shadow_edge(start: Vec2, dir: Delta, gx: int) -> Option<Vec2> {
    let gdx = gx - start.sx();
    if (dir.dx > 0 && 0 <= gdx <= SHADOW_REACH * dir.dx) || (dir.dx < 0 && SHADOW_REACH * dir.dx
        <= gdx <= 0) {
        Some(
            Vec2::spec_new(gx, start.sy() + trunc_div(dir.dy * spec_abs(gdx), spec_abs(dir.dx as int))),
        )
    } else {
        None
    }
}

/// Where the stretch that leaves `start` along `dir` and ends
/// [`SHADOW_REACH`] times `dir` away meets the line of the points whose first
/// coordinate is `gx`.
pub fn shadow_edge(start: &Vec2, dir: &Delta, gx: i32) -> (r: Option<Vec2>)
    requires
        shadow_dir_bounded(*dir),
        -LIMIT <= gx <= LIMIT,
    ensures
        r == spec_shadow_edge(*start, *dir, gx as int),
{
    let gdx: i64 = gx as i64 - start.x() as i64;
    let reach: i64 = SHADOW_REACH * dir.dx;
    if (dir.dx > 0 && 0 <= gdx && gdx <= reach) || (dir.dx < 0 && reach <= gdx && gdx <= 0) {
        let num = magnitude(gdx);
        let den = magnitude(dir.dx);
        proof {
            lemma_mul_bound(dir.dy as int, num as int, 30_000_000_000_000_000, 200_000_000);
        }
        let q = trunc_quot(dir.dy as i128 * num as i128, den as i128);
        Some(Vec2::from_wide(gx as i128, start.y() as i128 + q))
    } else {
        None
    }
}

/// The stretch of the goal line that the obstacle at `enemy` hides from
/// `start`. Where only one side of the shadow falls on the line of the goal,
/// the shadow runs from there to the post on that side.
pub open spec fn spec_shadow_clip(start: Vec2, enemy: Vec2, radius: int, goal: Line) -> Option<
    Line,
> {
    match spec_shadow_dirs(start, enemy, radius) {
        None => None,
        Some((left, right)) => {
            let a = spec_shadow_edge(start, left, goal.start.sx());
            let b = spec_shadow_edge(start, right, goal.start.sx());
            match (a, b) {
                (Some(l), Some(r)) => Some(Line { start: l, end: r }),
                (Some(l), None) => Some(Line { start: l, end: goal.end }),
                (None, Some(r)) => Some(Line { start: goal.start, end: r }),
                (None, None) => None,
            }
        },
    }
}

/// The stretch of the goal line that the obstacle at `enemy` hides from
/// `start`.
pub fn shadow_clip(start: &Vec2, enemy: &Vec2, radius: i64, goal: &Line) -> (r: Option<Line>)
    requires
        0 <= radius <= LIMIT,
    ensures
        r == spec_shadow_clip(*start, *enemy, radius as int, *goal),
{
    match shadow_dirs(start, enemy, radius) {
        None => None,
        Some((left, right)) => {
            let gx = goal.start.x();
            let a = shadow_edge(start, &left, gx);
            let b = shadow_edge(start, &right, gx);
            match (a, b) {
                (Some(l), Some(r)) => Some(Line { start: l, end: r }),
                (Some(l), None) => Some(Line { start: l, end: goal.end }),
                (None, Some(r)) => Some(Line { start: goal.start, end: r }),
                (None, None) => None,
            }
        },
    }
}

/// What is left of each of `windows`, in order, once `clip` is cut off it.
pub open spec fn spec_cut_all(windows: Seq<Line>, clip: Line) -> Seq<Line>
    decreases windows.len(),
{
    if windows.len() == 0 {
        Seq::empty()
    } else {
        spec_cut_all(windows.drop_last(), clip) + windows.last().spec_cut_off_segment(clip)
    }
}

/// What is left of each of `windows`, in order, once `clip` is cut off it.
pub fn cut_all(windows: &Vec<Line>, clip: &Line) -> (r: Vec<Line>)
    ensures
        r@ == spec_cut_all(windows@, *clip),
{
    let mut out: Vec<Line> = Vec::new();
    let mut i: usize = 0;
    while i < windows.len()
        invariant
            0 <= i <= windows.len(),
            out@ == spec_cut_all(windows@.take(i as int), *clip),
        decreases windows.len() - i,
    {
        let pieces = windows[i].cut_off_segment(clip);
        let ghost base = out@;
        let mut j: usize = 0;
        while j < pieces.len()
            invariant
                0 <= j <= pieces.len(),
                out@ == base + pieces@.take(j as int),
            decreases pieces.len() - j,
        {
            out.push(pieces[j]);
            proof {
                assert(pieces@.take(j as int + 1) =~= pieces@.take(j as int).push(pieces@[j as int]));
            }
            j += 1;
        }
        proof {
            assert(pieces@.take(pieces.len() as int) =~= pieces@);
            assert(windows@.take(i as int + 1).drop_last() =~= windows@.take(i as int));
        }
        i += 1;
    }
    assert(windows@.take(windows.len() as int) =~= windows@);
    out
}

/// The parts of `goal` that can be seen from `start` past `enemies`, from
/// the lower post to the upper.
pub open spec fn spec_open_shoot_windows(
    start: Vec2,
    enemies: Seq<Robot<EnemyInfo>>,
    radius: int,
    goal: Line,
) -> Seq<Line>
    decreases enemies.len(),
{
    if enemies.len() == 0 {
        seq![goal]
    } else {
        let before = spec_open_shoot_windows(start, enemies.drop_last(), radius, goal);
        match spec_shadow_clip(start, enemies.last().pose.position, radius, goal) {
            Some(clip) => spec_cut_all(before, clip),
            None => before,
        }
    }
}

/// The windows lie on the goal line between its posts, each from its lower
/// to its upper end, and each ends below the start of the next: no two of
/// them have a point in common.
pub open spec fn windows_disjoint_in_goal(goal: Line, windows: Seq<Line>) -> bool {
    &&& forall|i: int|
        0 <= i < windows.len() ==> {
            &&& (#[trigger] windows[i]).start.sx() == goal.start.sx()
            &&& windows[i].end.sx() == goal.start.sx()
            &&& goal.start.sy() <= windows[i].start.sy()
            &&& windows[i].start.sy() <= windows[i].end.sy()
            &&& windows[i].end.sy() <= goal.end.sy()
        }
    &&& forall|i: int, j: int|
        0 <= i < j < windows.len() ==> (#[trigger] windows[i]).end.sy() < (
        #[trigger] windows[j]).start.sy()
}

/// On a segment parallel to the second axis a point falls where its second
/// coordinate tells.
proof fn lemma_key_upright(w: Line, p: Vec2)
    requires
        w.start.sx() == w.end.sx(),
    ensures
        w.spec_key(p) == (p.sy() - w.start.sy()) * (w.end.sy() - w.start.sy()),
        w.spec_norm2() == (w.end.sy() - w.start.sy()) * (w.end.sy() - w.start.sy()),
{
    let d = w.spec_dir();
    let v = w.start.spec_delta_to(p);
    assert(d.dx == 0);
    assert(v.dx * d.dx == 0) by (nonlinear_arith)
        requires
            d.dx == 0,
    ;
    assert(d.dx * d.dx == 0) by (nonlinear_arith)
        requires
            d.dx == 0,
    ;
}

/// Multiplying by a positive number keeps the order.
proof fn lemma_scale_order(u: int, v: int, l: int)
    by (nonlinear_arith)
    requires
        l > 0,
    ensures
        u * l < v * l <==> u < v,
        u * l <= v * l <==> u <= v,
{
}

/// What is left of an upright window after a cut lies inside the window,
/// upright and in order.
proof fn lemma_cut_upright(w: Line, clip: Line)
    requires
        w.start.sx() == w.end.sx(),
        w.start.sy() <= w.end.sy(),
        clip.start.sx() == w.start.sx(),
        clip.end.sx() == w.start.sx(),
    ensures
        w.spec_cut_off_segment(clip).len() <= 2,
        forall|k: int|
            0 <= k < w.spec_cut_off_segment(clip).len() ==> {
                let piece = #[trigger] w.spec_cut_off_segment(clip)[k];
                &&& piece.start.sx() == w.start.sx()
                &&& piece.end.sx() == w.start.sx()
                &&& w.start.sy() <= piece.start.sy()
                &&& piece.start.sy() <= piece.end.sy()
                &&& piece.end.sy() <= w.end.sy()
            },
        w.spec_cut_off_segment(clip).len() == 2 ==> w.spec_cut_off_segment(clip)[0].end.sy()
            < w.spec_cut_off_segment(clip)[1].start.sy(),
{
    let l = w.end.sy() - w.start.sy();
    lemma_key_upright(w, clip.start);
    lemma_key_upright(w, clip.end);
    let ua = clip.start.sy() - w.start.sy();
    let ub = clip.end.sy() - w.start.sy();
    if l > 0 {
        lemma_scale_order(ua, ub, l);
        lemma_scale_order(ub, ua, l);
        lemma_scale_order(0, ua, l);
        lemma_scale_order(0, ub, l);
        lemma_scale_order(ua, l, l);
        lemma_scale_order(ub, l, l);
        assert(0 * l == 0);
    } else {
        assert(ua * l == 0 && ub * l == 0 && l * l == 0) by (nonlinear_arith)
            requires
                l == 0,
        ;
    }
}

/// Cutting a stretch of the goal line off windows that are disjoint in the
/// goal leaves windows that are disjoint in the goal, none of them below the
/// first or above the last of the old ones.
proof fn lemma_cut_all_upright(goal: Line, windows: Seq<Line>, clip: Line)
    requires
        windows_disjoint_in_goal(goal, windows),
        clip.start.sx() == goal.start.sx(),
        clip.end.sx() == goal.start.sx(),
    ensures
        windows_disjoint_in_goal(goal, spec_cut_all(windows, clip)),
        spec_cut_all(windows, clip).len() > 0 ==> {
            &&& windows.len() > 0
            &&& windows[0].start.sy() <= spec_cut_all(windows, clip)[0].start.sy()
            &&& spec_cut_all(windows, clip).last().end.sy() <= windows.last().end.sy()
        },
    decreases windows.len(),
{
    if windows.len() > 0 {
        let before = windows.drop_last();
        let last = windows.last();
        assert(windows_disjoint_in_goal(goal, before)) by {
            assert forall|i: int| 0 <= i < before.len() implies before[i] == windows[i] by {}
        }
        lemma_cut_all_upright(goal, before, clip);
        lemma_cut_upright(last, clip);
        let head = spec_cut_all(before, clip);
        let tail = last.spec_cut_off_segment(clip);
        let out = head + tail;
        assert(out == spec_cut_all(windows, clip));
        if head.len() > 0 {
            assert(before[before.len() - 1] == windows[before.len() - 1]);
            assert(before[0] == windows[0]);
        }
        assert forall|i: int| 0 <= i < out.len() implies {
            &&& (#[trigger] out[i]).start.sx() == goal.start.sx()
            &&& out[i].end.sx() == goal.start.sx()
            &&& goal.start.sy() <= out[i].start.sy()
            &&& out[i].start.sy() <= out[i].end.sy()
            &&& out[i].end.sy() <= goal.end.sy()
        } by {
            if i < head.len() {
                assert(out[i] == head[i]);
            } else {
                assert(out[i] == tail[i - head.len()]);
            }
        }
        assert forall|i: int, j: int| 0 <= i < j < out.len() implies (#[trigger] out[i]).end.sy()
            < (#[trigger] out[j]).start.sy() by {
            if j < head.len() {
                assert(out[i] == head[i] && out[j] == head[j]);
            } else if i >= head.len() {
                assert(out[i] == tail[i - head.len()] && out[j] == tail[j - head.len()]);
            } else {
                assert(out[i] == head[i] && out[j] == tail[j - head.len()]);
                if i < head.len() - 1 {
                    assert(head[i].end.sy() < head[head.len() - 1].start.sy());
                }
                assert(head[i].end.sy() <= head.last().end.sy());
                assert(before.last().end.sy() < last.start.sy());
            }
        }
        if out.len() > 0 {
            if head.len() > 0 {
                assert(out[0] == head[0]);
            } else {
                assert(out[0] == tail[0]);
                if before.len() > 0 {
                    assert(windows[0].end.sy() < windows[windows.len() - 1].start.sy());
                }
            }
            if tail.len() > 0 {
                assert(out.last() == tail[tail.len() - 1]);
            } else {
                assert(out.last() == head.last());
            }
        }
    }
}

/// The windows that are open from any point past any enemies lie on the
/// goal line between its posts and no two of them have a point in common.
pub proof fn lemma_open_shoot_windows(
    start: Vec2,
    enemies: Seq<Robot<EnemyInfo>>,
    radius: int,
    goal: Line,
)
    requires
        goal.start.sx() == goal.end.sx(),
        goal.start.sy() <= goal.end.sy(),
        -LIMIT <= goal.start.sx() <= LIMIT,
    ensures
        windows_disjoint_in_goal(goal, spec_open_shoot_windows(start, enemies, radius, goal)),
    decreases enemies.len(),
{
    if enemies.len() > 0 {
        lemma_open_shoot_windows(start, enemies.drop_last(), radius, goal);
        let before = spec_open_shoot_windows(start, enemies.drop_last(), radius, goal);
        match spec_shadow_clip(start, enemies.last().pose.position, radius, goal) {
            Some(clip) => {
                lemma_cut_all_upright(goal, before, clip);
            },
            None => {},
        }
    }
}

/// The parts of the enemy goal that can be seen from `shoot_start_position`
/// past the enemy robots, from the lower post to the upper.
pub fn get_open_shoot_window(shoot_start_position: &Vec2, world: &World) -> (r: Vec<Line>)
    ensures
        r@ == spec_open_shoot_windows(
            *shoot_start_position,
            world.enemies_bot@,
            spec_shadow_radius(world.geometry),
            world.geometry.enemy_goal.spec_line(),
        ),
        windows_disjoint_in_goal(world.geometry.enemy_goal.spec_line(), r@),
{
    let goal = world.geometry.enemy_goal.line();
    let radius = shadow_radius(&world.geometry);
    let enemies = world.enemies_bot.values();
    let mut windows: Vec<Line> = Vec::new();
    windows.push(goal);
    assert(windows@ =~= seq![goal]);
    assert(enemies@.take(0).len() == 0);
    let mut i: usize = 0;
    while i < enemies.len()
        invariant
            0 <= i <= enemies.len(),
            0 <= radius <= LIMIT,
            windows@ == spec_open_shoot_windows(
                *shoot_start_position,
                enemies@.take(i as int),
                radius as int,
                goal,
            ),
        decreases enemies.len() - i,
    {
        proof {
            assert(enemies@.take(i as int + 1).drop_last() =~= enemies@.take(i as int));
        }
        match shadow_clip(shoot_start_position, &enemies[i].pose.position, radius, &goal) {
            Some(clip) => {
                windows = cut_all(&windows, &clip);
            },
            None => {},
        }
        i += 1;
    }
    let gx = goal.start.x();
    proof {
        assert(enemies@.take(enemies.len() as int) =~= enemies@);
        assert(-LIMIT <= gx <= LIMIT);
        lemma_open_shoot_windows(*shoot_start_position, enemies@, radius as int, goal);
    }
    windows
}

/// Sum of the lengths of `windows`, each rounded down to the micrometre.
pub open spec fn spec_total_length(windows: Seq<Line>) -> int
    decreases windows.len(),
{
    if windows.len() == 0 {
        0
    } else {
        spec_total_length(windows.drop_last()) + windows.last().spec_length()
    }
}

/// Sum of the lengths of `windows`, or the greatest number that fits where
/// the sum does not.
pub open spec fn spec_total_length_capped(windows: Seq<Line>) -> int {
    if spec_total_length(windows) <= u64::MAX {
        spec_total_length(windows)
    } else {
        u64::MAX as int
    }
}

/// Sum of the lengths of `shoot_windows`, each rounded down to the
/// micrometre; the greatest number that fits where the sum does not.
pub fn shoot_windows_total_length(shoot_windows: &Vec<Line>) -> (r: u64)
    ensures
        r == spec_total_length_capped(shoot_windows@),
{
    let mut total: u64 = 0;
    let mut i: usize = 0;
    while i < shoot_windows.len()
        invariant
            0 <= i <= shoot_windows.len(),
            spec_total_length(shoot_windows@.take(i as int)) >= 0,
            total == if spec_total_length(shoot_windows@.take(i as int)) <= u64::MAX {
                spec_total_length(shoot_windows@.take(i as int))
            } else {
                u64::MAX as int
            },
        decreases shoot_windows.len() - i,
    {
        proof {
            assert(shoot_windows@.take(i as int + 1).drop_last() =~= shoot_windows@.take(i as int));
        }
        let len = shoot_windows[i].length();
        total = if total > u64::MAX - len {
            u64::MAX
        } else {
            total + len
        };
        i += 1;
    }
    assert(shoot_windows@.take(shoot_windows.len() as int) =~= shoot_windows@);
    total
}

/// Position of the first of `windows` that none is longer than; 0 where there
/// is no window.
pub open spec fn spec_longest_index(windows: Seq<Line>) -> int
    decreases windows.len(),
{
    if windows.len() <= 1 {
        0
    } else {
        let best = spec_longest_index(windows.drop_last());
        if windows.last().spec_norm2() > windows[best].spec_norm2() {
            windows.len() - 1
        } else {
            best
        }
    }
}

/// `spec_longest_index` is the first among the longest.
pub proof fn lemma_longest_index(windows: Seq<Line>)
    requires
        windows.len() > 0,
    ensures
        0 <= spec_longest_index(windows) < windows.len(),
        forall|k: int|
            0 <= k < windows.len() ==> (#[trigger] windows[k]).spec_norm2()
                <= windows[spec_longest_index(windows)].spec_norm2(),
        forall|k: int|
            0 <= k < spec_longest_index(windows) ==> (#[trigger] windows[k]).spec_norm2()
                < windows[spec_longest_index(windows)].spec_norm2(),
    decreases windows.len(),
{
    if windows.len() > 1 {
        lemma_longest_index(windows.drop_last());
        assert forall|k: int| 0 <= k < windows.len() - 1 implies windows.drop_last()[k]
            == windows[k] by {}
    }
}

/// The first of `windows` that none is longer than.
pub fn longest_window(windows: &Vec<Line>) -> (r: Option<Line>)
    ensures
        windows@.len() == 0 ==> r is None,
        windows@.len() > 0 ==> r == Some(windows@[spec_longest_index(windows@)]),
        r matches Some(longest) ==> {
            &&& 0 <= spec_longest_index(windows@) < windows@.len()
            &&& forall|k: int|
                0 <= k < windows@.len() ==> (#[trigger] windows@[k]).spec_norm2()
                    <= longest.spec_norm2()
            &&& forall|k: int|
                0 <= k < spec_longest_index(windows@) ==> (#[trigger] windows@[k]).spec_norm2()
                    < longest.spec_norm2()
        },
{
    if windows.len() == 0 {
        return None;
    }
    proof {
        lemma_longest_index(windows@);
    }
    let mut best: usize = 0;
    let mut best_len: i64 = windows[0].norm2();
    let mut i: usize = 1;
    assert(windows@.take(1).len() == 1);
    while i < windows.len()
        invariant
            1 <= i <= windows.len(),
            0 <= best < i,
            best == spec_longest_index(windows@.take(i as int)),
            best_len == windows@[best as int].spec_norm2(),
        decreases windows.len() - i,
    {
        proof {
            let next = windows@.take(i as int + 1);
            assert(next.drop_last() =~= windows@.take(i as int));
            assert(next[best as int] == windows@[best as int]);
        }
        let len = windows[i].norm2();
        if len > best_len {
            best = i;
            best_len = len;
        }
        i += 1;
    }
    assert(windows@.take(windows.len() as int) =~= windows@);
    Some(windows[best])
}

} // verus!
