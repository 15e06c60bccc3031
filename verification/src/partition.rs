//! The rule of the manager: every robot belongs to at most one strategy. This
//! module states the rule over the views of the strategies, defines the moves
//! by which the manager hands robots round, and proves that each move keeps
//! the rule.

use vstd::prelude::*;
use crate::strategy::StrategyKind;
use crate::strategy::StrategyView;
use crate::utils::KEEPER_ID;

verus! {

/// How often `id` occurs in `ids`.
pub open spec fn spec_count_in(ids: Seq<u8>, id: u8) -> nat
    decreases ids.len(),
{
    if ids.len() == 0 {
        0
    } else {
        spec_count_in(ids.drop_last(), id) + if ids.last() == id {
            1nat
        } else {
            0nat
        }
    }
}

/// How often `id` occurs in the lists of all of `strategies` together.
pub open spec fn spec_occurrences(strategies: Seq<StrategyView>, id: u8) -> nat
    decreases strategies.len(),
{
    if strategies.len() == 0 {
        0
    } else {
        spec_occurrences(strategies.drop_last(), id) + spec_count_in(strategies.last().ids, id)
    }
}

/// No robot occurs twice, be it in one strategy or in two.
pub open spec fn no_robot_twice(strategies: Seq<StrategyView>) -> bool {
    forall|id: u8| spec_occurrences(strategies, id) <= 1
}

/// The strategy owns a robot, and only one if its kind takes only one.
pub open spec fn shaped(strategy: StrategyView) -> bool {
    &&& strategy.ids.len() >= 1
    &&& (strategy.kind.spec_single() || strategy.kind is TestVisionMoveTo) ==> strategy.ids.len()
        == 1
}

/// The rule of the manager: no robot occurs twice and no strategy is without
/// a robot.
pub open spec fn well_formed(strategies: Seq<StrategyView>) -> bool {
    &&& no_robot_twice(strategies)
    &&& forall|i: int| 0 <= i < strategies.len() ==> shaped(#[trigger] strategies[i])
}

/// There is a goalkeeper strategy that owns the goalkeeper and nothing else.
pub open spec fn keeper_pinned(strategies: Seq<StrategyView>) -> bool {
    exists|i: int|
        0 <= i < strategies.len() && (#[trigger] strategies[i]).kind == StrategyKind::GoalKeeper
            && strategies[i].ids == seq![KEEPER_ID]
}

/// A strategy of the given kind that owns `ids` and has nothing to tell.
pub open spec fn spec_fresh(kind: StrategyKind, ids: Seq<u8>) -> StrategyView {
    StrategyView { kind, ids, messages: Seq::empty() }
}

/// Position of the first of `strategies` that owns `id`, or their number if
/// none does.
pub open spec fn spec_holder(strategies: Seq<StrategyView>, id: u8) -> int
    decreases strategies.len(),
{
    if strategies.len() == 0 {
        0
    } else if strategies[0].ids.contains(id) {
        0
    } else {
        1 + spec_holder(strategies.skip(1), id)
    }
}

/// Position of the first occurrence of `id` in `ids`, or their number if it
/// does not occur.
pub open spec fn spec_first_index(ids: Seq<u8>, id: u8) -> int
    decreases ids.len(),
{
    if ids.len() == 0 {
        0
    } else if ids[0] == id {
        0
    } else {
        1 + spec_first_index(ids.skip(1), id)
    }
}

/// `spec_first_index` finds the first occurrence, if there is one.
pub proof fn lemma_first_index(ids: Seq<u8>, id: u8)
    ensures
        0 <= spec_first_index(ids, id) <= ids.len(),
        spec_first_index(ids, id) < ids.len() ==> ids[spec_first_index(ids, id)] == id,
        forall|k: int| 0 <= k < spec_first_index(ids, id) ==> ids[k] != id,
        spec_first_index(ids, id) < ids.len() <==> ids.contains(id),
    decreases ids.len(),
{
    if ids.len() > 0 && ids[0] != id {
        let rest = ids.skip(1);
        lemma_first_index(rest, id);
        let h = spec_first_index(rest, id);
        assert forall|k: int| 0 <= k < 1 + h implies ids[k] != id by {
            if k > 0 {
                assert(rest[k - 1] == ids[k]);
            }
        }
        if h < rest.len() {
            assert(rest[h] == ids[h + 1]);
        }
        if ids.contains(id) {
            let w = choose|w: int| 0 <= w < ids.len() && ids[w] == id;
            assert(rest[w - 1] == id);
        }
    }
}

/// `ids` without the first occurrence of `id`.
pub open spec fn spec_without_first(ids: Seq<u8>, id: u8) -> Seq<u8> {
    if spec_first_index(ids, id) < ids.len() {
        ids.remove(spec_first_index(ids, id))
    } else {
        ids
    }
}

/// `ids` without any occurrence of `id`.
pub open spec fn spec_without(ids: Seq<u8>, id: u8) -> Seq<u8>
    decreases ids.len(),
{
    if ids.len() == 0 {
        ids
    } else if ids.last() == id {
        spec_without(ids.drop_last(), id)
    } else {
        spec_without(ids.drop_last(), id).push(ids.last())
    }
}

/// The strategies after the robot `bot_id` has gone to the new strategy
/// `strategy`: where the strategy that held the robot held nothing else, the
/// new one takes its place; else the robot leaves its old strategy and the
/// new one comes last.
pub open spec fn spec_move_to_new(
    strategies: Seq<StrategyView>,
    bot_id: u8,
    strategy: StrategyView,
) -> Seq<StrategyView> {
    let h = spec_holder(strategies, bot_id);
    if h < strategies.len() {
        let rest = spec_without_first(strategies[h].ids, bot_id);
        if rest.len() == 0 {
            strategies.update(h, strategy)
        } else {
            strategies.update(h, strategies[h].spec_put_ids(rest)).push(strategy)
        }
    } else {
        strategies.push(strategy)
    }
}

/// The strategies after the robot at `at` has lost the robot `bot_id`: a
/// strategy that was said to hold `held` robots goes if `held` is one, else
/// it is put its list without the robot.
pub open spec fn spec_release(
    strategies: Seq<StrategyView>,
    at: int,
    held: int,
    bot_id: u8,
) -> Seq<StrategyView> {
    if held == 1 {
        strategies.remove(at)
    } else {
        strategies.update(at, strategies[at].spec_put_ids(spec_without(strategies[at].ids, bot_id)))
    }
}

/// The strategies after the robot `bot_id` has left the strategy that holds
/// it, if one does.
pub open spec fn spec_detach(strategies: Seq<StrategyView>, bot_id: u8) -> Seq<StrategyView> {
    let h = spec_holder(strategies, bot_id);
    if h < strategies.len() {
        spec_release(strategies, h, strategies[h].ids.len() as int, bot_id)
    } else {
        strategies
    }
}

/// The strategies after the robot `bot_id` has gone to the strategy at
/// `strategy_index`: that strategy is put its list with the robot added, and
/// the strategy that held the robot before loses it, or goes if it held
/// nothing else.
pub open spec fn spec_move_to_existing(
    strategies: Seq<StrategyView>,
    bot_id: u8,
    strategy_index: int,
) -> Seq<StrategyView> {
    let h = spec_holder(strategies, bot_id);
    let joined = strategies.update(
        strategy_index,
        strategies[strategy_index].spec_put_ids(strategies[strategy_index].ids.push(bot_id)),
    );
    if h < strategies.len() {
        spec_release(joined, h, strategies[h].ids.len() as int, bot_id)
    } else {
        joined
    }
}

/// One more robot at the end of a list is counted once more if it is the one.
pub proof fn lemma_count_push(ids: Seq<u8>, last: u8, id: u8)
    ensures
        spec_count_in(ids.push(last), id) == spec_count_in(ids, id) + if last == id {
            1nat
        } else {
            0nat
        },
{
    assert(ids.push(last).drop_last() =~= ids);
}

/// A list of one robot counts that robot once and no other.
pub proof fn lemma_count_single(only: u8, id: u8)
    ensures
        spec_count_in(seq![only], id) == if only == id {
            1nat
        } else {
            0nat
        },
{
    assert(seq![only] =~= Seq::<u8>::empty().push(only));
    lemma_count_push(Seq::<u8>::empty(), only, id);
}

/// A robot is counted in a list if and only if the list contains it, and
/// never more often than the list is long.
pub proof fn lemma_count_contains(ids: Seq<u8>, id: u8)
    ensures
        spec_count_in(ids, id) > 0 <==> ids.contains(id),
        spec_count_in(ids, id) <= ids.len(),
    decreases ids.len(),
{
    if ids.len() > 0 {
        lemma_count_contains(ids.drop_last(), id);
        if ids.drop_last().contains(id) {
            let k = choose|k: int| 0 <= k < ids.drop_last().len() && ids.drop_last()[k] == id;
            assert(ids[k] == id);
        }
        if ids.contains(id) && ids.last() != id {
            let k = choose|k: int| 0 <= k < ids.len() && ids[k] == id;
            assert(ids.drop_last()[k] == id);
        }
    }
}

/// A robot taken out of a list is counted once less if it is the one.
pub proof fn lemma_count_remove(ids: Seq<u8>, k: int, id: u8)
    requires
        0 <= k < ids.len(),
    ensures
        spec_count_in(ids.remove(k), id) == spec_count_in(ids, id) - if ids[k] == id {
            1int
        } else {
            0int
        },
    decreases ids.len(),
{
    if k == ids.len() - 1 {
        assert(ids.remove(k) =~= ids.drop_last());
    } else {
        lemma_count_remove(ids.drop_last(), k, id);
        assert(ids.remove(k) =~= ids.drop_last().remove(k).push(ids.last()));
        lemma_count_push(ids.drop_last().remove(k), ids.last(), id);
    }
}

/// A list without the first occurrence of a robot counts that robot once less and every other as before.
pub proof fn lemma_count_without_first(ids: Seq<u8>, gone: u8, id: u8)
    ensures
        spec_count_in(spec_without_first(ids, gone), id) == spec_count_in(ids, id) - if id == gone
            && ids.contains(gone) {
            1int
        } else {
            0int
        },
        spec_without_first(ids, gone).len() == ids.len() - if ids.contains(gone) {
            1int
        } else {
            0int
        },
{
    lemma_first_index(ids, gone);
    if ids.contains(gone) {
        let k = spec_first_index(ids, gone);
        lemma_count_remove(ids, k, id);
    }
}

/// A list without a robot counts that robot not at all and every other as before.
pub proof fn lemma_count_without(ids: Seq<u8>, gone: u8, id: u8)
    ensures
        spec_count_in(spec_without(ids, gone), id) == if id == gone {
            0
        } else {
            spec_count_in(ids, id)
        },
        spec_without(ids, gone).len() == ids.len() - spec_count_in(ids, gone),
    decreases ids.len(),
{
    if ids.len() > 0 {
        lemma_count_without(ids.drop_last(), gone, id);
        if ids.last() != gone {
            lemma_count_push(spec_without(ids.drop_last(), gone), ids.last(), id);
        }
    }
}

/// One more strategy adds what it owns to the occurrences.
pub proof fn lemma_occurrences_push(strategies: Seq<StrategyView>, last: StrategyView, id: u8)
    ensures
        spec_occurrences(strategies.push(last), id) == spec_occurrences(strategies, id)
            + spec_count_in(last.ids, id),
{
    assert(strategies.push(last).drop_last() =~= strategies);
}

/// A strategy in the place of another changes the occurrences by what the two own.
pub proof fn lemma_occurrences_update(
    strategies: Seq<StrategyView>,
    at: int,
    new: StrategyView,
    id: u8,
)
    requires
        0 <= at < strategies.len(),
    ensures
        spec_occurrences(strategies.update(at, new), id) == spec_occurrences(strategies, id)
            - spec_count_in(strategies[at].ids, id) + spec_count_in(new.ids, id),
    decreases strategies.len(),
{
    if at == strategies.len() - 1 {
        assert(strategies.update(at, new).drop_last() =~= strategies.drop_last());
    } else {
        lemma_occurrences_update(strategies.drop_last(), at, new, id);
        assert(strategies.update(at, new).drop_last() =~= strategies.drop_last().update(at, new));
    }
}

/// A strategy that goes takes what it owns from the occurrences.
pub proof fn lemma_occurrences_remove(strategies: Seq<StrategyView>, at: int, id: u8)
    requires
        0 <= at < strategies.len(),
    ensures
        spec_occurrences(strategies.remove(at), id) == spec_occurrences(strategies, id)
            - spec_count_in(strategies[at].ids, id),
    decreases strategies.len(),
{
    if at == strategies.len() - 1 {
        assert(strategies.remove(at) =~= strategies.drop_last());
    } else {
        lemma_occurrences_remove(strategies.drop_last(), at, id);
        assert(strategies.remove(at) =~= strategies.drop_last().remove(at).push(
            strategies.last(),
        ));
        lemma_occurrences_push(strategies.drop_last().remove(at), strategies.last(), id);
    }
}

/// A robot occurs in all the strategies at least as often as in any one of
/// them, and as often as in any two of them together.
pub proof fn lemma_occurrences_at_least(strategies: Seq<StrategyView>, i: int, j: int, id: u8)
    requires
        0 <= i < strategies.len(),
        0 <= j < strategies.len(),
    ensures
        spec_occurrences(strategies, id) >= spec_count_in(strategies[i].ids, id),
        i != j ==> spec_occurrences(strategies, id) >= spec_count_in(strategies[i].ids, id)
            + spec_count_in(strategies[j].ids, id),
    decreases strategies.len(),
{
    let n = strategies.len() - 1;
    if i < n && j < n {
        lemma_occurrences_at_least(strategies.drop_last(), i, j, id);
    } else if i < n {
        lemma_occurrences_at_least(strategies.drop_last(), i, i, id);
    } else if j < n {
        lemma_occurrences_at_least(strategies.drop_last(), j, j, id);
    }
}

/// `spec_holder` finds the first strategy that owns the robot; where it
/// finds none the robot does not occur.
pub proof fn lemma_holder(strategies: Seq<StrategyView>, id: u8)
    ensures
        0 <= spec_holder(strategies, id) <= strategies.len(),
        spec_holder(strategies, id) < strategies.len() ==> strategies[spec_holder(
            strategies,
            id,
        )].ids.contains(id),
        forall|k: int|
            0 <= k < spec_holder(strategies, id) ==> !(#[trigger] strategies[k]).ids.contains(id),
        spec_holder(strategies, id) == strategies.len() ==> spec_occurrences(strategies, id) == 0,
    decreases strategies.len(),
{
    if strategies.len() > 0 {
        let rest = strategies.skip(1);
        lemma_holder(rest, id);
        let h = spec_holder(rest, id);
        if !strategies[0].ids.contains(id) {
            assert forall|k: int| 0 <= k < 1 + h implies !(#[trigger] strategies[k]).ids.contains(
                id,
            ) by {
                if k > 0 {
                    assert(rest[k - 1] == strategies[k]);
                }
            }
            if h < rest.len() {
                assert(rest[h] == strategies[h + 1]);
            } else {
                lemma_not_held(strategies, id);
            }
        }
    }
}

/// A robot that no strategy contains does not occur.
pub proof fn lemma_not_held(strategies: Seq<StrategyView>, id: u8)
    requires
        forall|k: int| 0 <= k < strategies.len() ==> !(#[trigger] strategies[k]).ids.contains(id),
    ensures
        spec_occurrences(strategies, id) == 0,
    decreases strategies.len(),
{
    if strategies.len() > 0 {
        assert forall|k: int| 0 <= k < strategies.drop_last().len() implies !(
        #[trigger] strategies.drop_last()[k]).ids.contains(id) by {
            assert(strategies.drop_last()[k] == strategies[k]);
        }
        lemma_not_held(strategies.drop_last(), id);
        assert(!strategies[strategies.len() - 1].ids.contains(id));
        lemma_count_contains(strategies.last().ids, id);
    }
}

/// Under the rule no robot stands at two places: not in two strategies and
/// not twice in one.
pub proof fn lemma_no_robot_twice(strategies: Seq<StrategyView>, i: int, a: int, j: int, b: int)
    requires
        no_robot_twice(strategies),
        0 <= i < strategies.len(),
        0 <= a < strategies[i].ids.len(),
        0 <= j < strategies.len(),
        0 <= b < strategies[j].ids.len(),
        i != j || a != b,
    ensures
        strategies[i].ids[a] != strategies[j].ids[b],
{
    let id = strategies[i].ids[a];
    if strategies[j].ids[b] == id {
        assert(spec_occurrences(strategies, id) <= 1);
        if i != j {
            lemma_occurrences_at_least(strategies, i, j, id);
            lemma_count_contains(strategies[i].ids, id);
            lemma_count_contains(strategies[j].ids, id);
        } else {
            lemma_occurrences_at_least(strategies, i, i, id);
            let ids = strategies[i].ids;
            let (lo, hi) = if a < b {
                (a, b)
            } else {
                (b, a)
            };
            lemma_count_remove(ids, hi, id);
            assert(ids.remove(hi)[lo] == id);
            lemma_count_contains(ids.remove(hi), id);
        }
    }
}

/// A move to a new strategy that owns the robot and nothing else keeps the
/// rule of the manager.
pub proof fn lemma_move_to_new_well_formed(
    strategies: Seq<StrategyView>,
    bot_id: u8,
    strategy: StrategyView,
)
    requires
        well_formed(strategies),
        strategy.ids == seq![bot_id],
    ensures
        well_formed(spec_move_to_new(strategies, bot_id, strategy)),
{
    let out = spec_move_to_new(strategies, bot_id, strategy);
    let h = spec_holder(strategies, bot_id);
    lemma_holder(strategies, bot_id);
    assert(shaped(strategy));
    assert forall|id: u8| spec_occurrences(out, id) <= 1 by {
        assert(spec_occurrences(strategies, id) <= 1);
        lemma_count_single(bot_id, id);
        if h < strategies.len() {
            let held = strategies[h];
            let rest = spec_without_first(held.ids, bot_id);
            lemma_count_without_first(held.ids, bot_id, id);
            lemma_count_contains(held.ids, bot_id);
            if rest.len() == 0 {
                lemma_occurrences_update(strategies, h, strategy, id);
            } else {
                assert(shaped(held));
                let kept = held.spec_put_ids(rest);
                assert(kept.ids == rest);
                lemma_occurrences_update(strategies, h, kept, id);
                lemma_occurrences_push(strategies.update(h, kept), strategy, id);
            }
        } else {
            lemma_occurrences_push(strategies, strategy, id);
        }
    }
    assert forall|i: int| 0 <= i < out.len() implies shaped(#[trigger] out[i]) by {
        if h < strategies.len() {
            let held = strategies[h];
            assert(shaped(held));
            lemma_count_without_first(held.ids, bot_id, bot_id);
            if i < strategies.len() && i != h {
                assert(out[i] == strategies[i]);
            }
        } else {
            if i < strategies.len() {
                assert(out[i] == strategies[i]);
            }
        }
    }
}

/// Taking a robot out of the strategy that holds it keeps the rule of the
/// manager, and afterwards the robot belongs to no strategy.
pub proof fn lemma_detach_well_formed(strategies: Seq<StrategyView>, bot_id: u8)
    requires
        well_formed(strategies),
    ensures
        well_formed(spec_detach(strategies, bot_id)),
        spec_occurrences(spec_detach(strategies, bot_id), bot_id) == 0,
        forall|id: u8|
            id != bot_id ==> spec_occurrences(spec_detach(strategies, bot_id), id)
                == spec_occurrences(strategies, id),
{
    let out = spec_detach(strategies, bot_id);
    let h = spec_holder(strategies, bot_id);
    lemma_holder(strategies, bot_id);
    if h < strategies.len() {
        let held = strategies[h];
        assert(shaped(held));
        lemma_count_contains(held.ids, bot_id);
        assert(spec_occurrences(strategies, bot_id) <= 1);
        lemma_occurrences_at_least(strategies, h, h, bot_id);
        assert(spec_count_in(held.ids, bot_id) == 1);
        lemma_count_without(held.ids, bot_id, bot_id);
        assert forall|id: u8|
            spec_occurrences(out, id) == if id == bot_id {
                0
            } else {
                spec_occurrences(strategies, id)
            } by {
            lemma_count_without(held.ids, bot_id, id);
            if held.ids.len() == 1 {
                lemma_occurrences_remove(strategies, h, id);
                assert(held.ids =~= seq![held.ids[0]]);
                assert(held.ids[0] == bot_id);
                lemma_count_single(bot_id, id);
            } else {
                lemma_occurrences_update(
                    strategies,
                    h,
                    held.spec_put_ids(spec_without(held.ids, bot_id)),
                    id,
                );
            }
        }
        assert forall|id: u8| spec_occurrences(out, id) <= 1 by {
            assert(spec_occurrences(strategies, id) <= 1);
        }
        assert forall|i: int| 0 <= i < out.len() implies shaped(#[trigger] out[i]) by {
            if held.ids.len() == 1 {
                if i < h {
                    assert(out[i] == strategies[i]);
                } else {
                    assert(out[i] == strategies[i + 1]);
                }
            } else {
                if i != h {
                    assert(out[i] == strategies[i]);
                }
            }
        }
    }
}

/// A move to a strategy that the manager holds keeps the rule of the
/// manager.
pub proof fn lemma_move_to_existing_well_formed(
    strategies: Seq<StrategyView>,
    bot_id: u8,
    strategy_index: int,
)
    requires
        well_formed(strategies),
        0 <= strategy_index < strategies.len(),
    ensures
        well_formed(spec_move_to_existing(strategies, bot_id, strategy_index)),
{
    let out = spec_move_to_existing(strategies, bot_id, strategy_index);
    let h = spec_holder(strategies, bot_id);
    lemma_holder(strategies, bot_id);
    let target = strategies[strategy_index];
    let grown = target.spec_put_ids(target.ids.push(bot_id));
    let joined = strategies.update(strategy_index, grown);
    assert(shaped(target));
    assert(shaped(grown));
    let taken: bool = target.kind.spec_accepts(target.ids.push(bot_id));
    assert forall|id: u8|
        spec_occurrences(joined, id) == spec_occurrences(strategies, id) + if taken && id
            == bot_id {
            1int
        } else {
            0int
        } by {
        lemma_occurrences_update(strategies, strategy_index, grown, id);
        lemma_count_push(target.ids, bot_id, id);
    }
    if h < strategies.len() {
        let held = strategies[h];
        let was = joined[h];
        assert(shaped(held));
        lemma_count_contains(held.ids, bot_id);
        lemma_occurrences_at_least(strategies, h, h, bot_id);
        assert(spec_occurrences(strategies, bot_id) <= 1);
        assert(spec_count_in(held.ids, bot_id) == 1);
        lemma_count_push(held.ids, bot_id, bot_id);
        assert(spec_count_in(was.ids, bot_id) == if taken && h == strategy_index {
            2int
        } else {
            1int
        });
        lemma_count_without(was.ids, bot_id, bot_id);
        assert forall|id: u8| spec_occurrences(out, id) <= 1 by {
            assert(spec_occurrences(strategies, id) <= 1);
            lemma_count_without(was.ids, bot_id, id);
            if held.ids.len() == 1 {
                lemma_occurrences_remove(joined, h, id);
            } else {
                lemma_occurrences_update(
                    joined,
                    h,
                    was.spec_put_ids(spec_without(was.ids, bot_id)),
                    id,
                );
            }
        }
        assert forall|i: int| 0 <= i < out.len() implies shaped(#[trigger] out[i]) by {
            if held.ids.len() == 1 {
                if i < h {
                    assert(out[i] == joined[i]);
                } else {
                    assert(out[i] == joined[i + 1]);
                }
                if i < h && i != strategy_index {
                    assert(joined[i] == strategies[i]);
                }
                if i >= h && i + 1 != strategy_index {
                    assert(joined[i + 1] == strategies[i + 1]);
                }
            } else {
                if i != h {
                    assert(out[i] == joined[i]);
                    if i != strategy_index {
                        assert(joined[i] == strategies[i]);
                    }
                }
            }
        }
    } else {
        assert forall|id: u8| spec_occurrences(out, id) <= 1 by {
            assert(spec_occurrences(strategies, id) <= 1);
        }
        assert forall|i: int| 0 <= i < out.len() implies shaped(#[trigger] out[i]) by {
            if i != strategy_index {
                assert(out[i] == strategies[i]);
            }
        }
    }
}

/// There is a strategy of the kind `kind` that owns the robot `id` and
/// nothing else.
pub open spec fn owns_alone(strategies: Seq<StrategyView>, kind: StrategyKind, id: u8) -> bool {
    exists|i: int|
        0 <= i < strategies.len() && (#[trigger] strategies[i]).kind == kind && strategies[i].ids
            == seq![id]
}

/// A move of a robot to a new strategy leaves a strategy that owns another
/// robot and nothing else as it is.
pub proof fn lemma_move_to_new_alone(
    strategies: Seq<StrategyView>,
    bot_id: u8,
    strategy: StrategyView,
    kind: StrategyKind,
    id: u8,
)
    requires
        owns_alone(strategies, kind, id),
        bot_id != id,
    ensures
        owns_alone(spec_move_to_new(strategies, bot_id, strategy), kind, id),
{
    let out = spec_move_to_new(strategies, bot_id, strategy);
    let k = choose|i: int|
        0 <= i < strategies.len() && (#[trigger] strategies[i]).kind == kind && strategies[i].ids
            == seq![id];
    let h = spec_holder(strategies, bot_id);
    lemma_holder(strategies, bot_id);
    if h < strategies.len() {
        assert(strategies[h].ids.contains(bot_id));
        assert(h != k) by {
            if h == k {
                let w = choose|w: int| 0 <= w < strategies[h].ids.len() && strategies[h].ids[w] == bot_id;
                assert(seq![id][w] == id);
            }
        }
    }
    assert(out[k] == strategies[k]);
}

/// After the move of a robot to a new strategy that owns it and nothing
/// else, the manager holds that strategy.
pub proof fn lemma_move_to_new_there(
    strategies: Seq<StrategyView>,
    bot_id: u8,
    strategy: StrategyView,
)
    requires
        strategy.ids == seq![bot_id],
    ensures
        owns_alone(spec_move_to_new(strategies, bot_id, strategy), strategy.kind, bot_id),
{
    let out = spec_move_to_new(strategies, bot_id, strategy);
    let h = spec_holder(strategies, bot_id);
    lemma_holder(strategies, bot_id);
    if h < strategies.len() && spec_without_first(strategies[h].ids, bot_id).len() == 0 {
        assert(out[h] == strategy);
    } else {
        assert(out[out.len() - 1] == strategy);
    }
}

/// A move of another robot than the goalkeeper to a new strategy leaves the
/// goalkeeper strategy as it is.
pub proof fn lemma_move_to_new_keeper(
    strategies: Seq<StrategyView>,
    bot_id: u8,
    strategy: StrategyView,
)
    requires
        keeper_pinned(strategies),
        bot_id != KEEPER_ID,
    ensures
        keeper_pinned(spec_move_to_new(strategies, bot_id, strategy)),
{
    lemma_move_to_new_alone(strategies, bot_id, strategy, StrategyKind::GoalKeeper, KEEPER_ID);
}

/// Taking another robot than the goalkeeper out of its strategy leaves the
/// goalkeeper strategy as it is.
pub proof fn lemma_release_keeper(
    strategies: Seq<StrategyView>,
    at: int,
    held: int,
    bot_id: u8,
)
    requires
        keeper_pinned(strategies),
        bot_id != KEEPER_ID,
        0 <= at < strategies.len(),
        strategies[at].ids.contains(bot_id),
    ensures
        keeper_pinned(spec_release(strategies, at, held, bot_id)),
{
    let out = spec_release(strategies, at, held, bot_id);
    let k = choose|i: int|
        0 <= i < strategies.len() && (#[trigger] strategies[i]).kind == StrategyKind::GoalKeeper
            && strategies[i].ids == seq![KEEPER_ID];
    assert(at != k) by {
        if at == k {
            let w = choose|w: int| 0 <= w < strategies[at].ids.len() && strategies[at].ids[w] == bot_id;
            assert(seq![KEEPER_ID][w] == KEEPER_ID);
        }
    }
    if held == 1 {
        if k < at {
            assert(out[k] == strategies[k]);
        } else {
            assert(out[k - 1] == strategies[k]);
        }
    } else {
        assert(out[k] == strategies[k]);
    }
}

/// Taking another robot than the goalkeeper out of the strategy that holds
/// it leaves the goalkeeper strategy as it is.
pub proof fn lemma_detach_keeper(strategies: Seq<StrategyView>, bot_id: u8)
    requires
        keeper_pinned(strategies),
        bot_id != KEEPER_ID,
    ensures
        keeper_pinned(spec_detach(strategies, bot_id)),
{
    let h = spec_holder(strategies, bot_id);
    lemma_holder(strategies, bot_id);
    if h < strategies.len() {
        lemma_release_keeper(strategies, h, strategies[h].ids.len() as int, bot_id);
    }
}

/// A move of another robot than the goalkeeper to a strategy that the
/// manager holds leaves the goalkeeper strategy as it is.
pub proof fn lemma_move_to_existing_keeper(
    strategies: Seq<StrategyView>,
    bot_id: u8,
    strategy_index: int,
)
    requires
        keeper_pinned(strategies),
        bot_id != KEEPER_ID,
        0 <= strategy_index < strategies.len(),
    ensures
        keeper_pinned(spec_move_to_existing(strategies, bot_id, strategy_index)),
{
    let h = spec_holder(strategies, bot_id);
    lemma_holder(strategies, bot_id);
    let target = strategies[strategy_index];
    let grown = target.spec_put_ids(target.ids.push(bot_id));
    let joined = strategies.update(strategy_index, grown);
    let k = choose|i: int|
        0 <= i < strategies.len() && (#[trigger] strategies[i]).kind == StrategyKind::GoalKeeper
            && strategies[i].ids == seq![KEEPER_ID];
    assert(joined[k] == strategies[k]) by {
        if k == strategy_index {
            assert(target.ids.push(bot_id).len() == 2);
        }
    }
    assert(keeper_pinned(joined));
    if h < strategies.len() {
        assert(joined[h].ids.contains(bot_id)) by {
            let w = choose|w: int| 0 <= w < strategies[h].ids.len() && strategies[h].ids[w] == bot_id;
            if h == strategy_index {
                if target.kind.spec_accepts(target.ids.push(bot_id)) {
                    assert(target.ids.push(bot_id)[w] == bot_id);
                }
            }
            assert(joined[h].ids[w] == bot_id);
        }
        lemma_release_keeper(joined, h, strategies[h].ids.len() as int, bot_id);
    }
}

/// The strategies of `strategies` that `keep` holds of, in order.
pub open spec fn spec_kept(
    strategies: Seq<StrategyView>,
    keep: spec_fn(StrategyView) -> bool,
) -> Seq<StrategyView>
    decreases strategies.len(),
{
    if strategies.len() == 0 {
        strategies
    } else if keep(strategies.last()) {
        spec_kept(strategies.drop_last(), keep).push(strategies.last())
    } else {
        spec_kept(strategies.drop_last(), keep)
    }
}

/// Holds of every strategy but a receiver.
pub open spec fn not_receiver() -> spec_fn(StrategyView) -> bool {
    |strategy: StrategyView| !(strategy.kind is Receiver)
}

/// Holds of every strategy that owns a robot.
pub open spec fn not_idle() -> spec_fn(StrategyView) -> bool {
    |strategy: StrategyView| strategy.ids.len() > 0
}

/// `strategies` without the receivers.
pub open spec fn spec_without_receivers(strategies: Seq<StrategyView>) -> Seq<StrategyView> {
    spec_kept(strategies, not_receiver())
}

/// `strategies` without those that own no robot.
pub open spec fn spec_without_idle(strategies: Seq<StrategyView>) -> Seq<StrategyView> {
    spec_kept(strategies, not_idle())
}

/// Sending strategies away keeps the rule of the manager, and it keeps the
/// goalkeeper strategy if the goalkeeper strategy is not among those sent
/// away.
pub proof fn lemma_kept(strategies: Seq<StrategyView>, keep: spec_fn(StrategyView) -> bool)
    ensures
        forall|id: u8|
            spec_occurrences(spec_kept(strategies, keep), id) <= spec_occurrences(strategies, id),
        forall|i: int|
            0 <= i < spec_kept(strategies, keep).len() ==> exists|j: int|
                0 <= j < strategies.len() && strategies[j] == #[trigger] spec_kept(
                    strategies,
                    keep,
                )[i],
        well_formed(strategies) ==> well_formed(spec_kept(strategies, keep)),
        keeper_pinned(strategies) && (forall|v: StrategyView|
            v.kind == StrategyKind::GoalKeeper && v.ids == seq![KEEPER_ID] ==> #[trigger] keep(v))
            ==> keeper_pinned(spec_kept(strategies, keep)),
    decreases strategies.len(),
{
    let out = spec_kept(strategies, keep);
    if strategies.len() > 0 {
        let before = strategies.drop_last();
        lemma_kept(before, keep);
        let kept = spec_kept(before, keep);
        assert forall|id: u8| spec_occurrences(out, id) <= spec_occurrences(strategies, id) by {
            assert(spec_occurrences(kept, id) <= spec_occurrences(before, id));
            assert(spec_occurrences(strategies, id) == spec_occurrences(before, id)
                + spec_count_in(strategies.last().ids, id));
            if keep(strategies.last()) {
                lemma_occurrences_push(kept, strategies.last(), id);
                assert(out == kept.push(strategies.last()));
            } else {
                assert(out == kept);
            }
        }
        assert forall|i: int| 0 <= i < out.len() implies exists|j: int|
            0 <= j < strategies.len() && strategies[j] == #[trigger] out[i] by {
            if i < kept.len() {
                assert(out[i] == kept[i]);
                let j = choose|j: int| 0 <= j < before.len() && before[j] == kept[i];
                assert(strategies[j] == out[i]);
            } else {
                assert(strategies[strategies.len() - 1] == out[i]);
            }
        }
        if well_formed(strategies) {
            assert forall|id: u8| spec_occurrences(out, id) <= 1 by {
                assert(spec_occurrences(strategies, id) <= 1);
            }
            assert forall|i: int| 0 <= i < out.len() implies shaped(#[trigger] out[i]) by {
                let j = choose|j: int| 0 <= j < strategies.len() && strategies[j] == out[i];
                assert(shaped(strategies[j]));
            }
        }
        if keeper_pinned(strategies) && (forall|v: StrategyView|
            v.kind == StrategyKind::GoalKeeper && v.ids == seq![KEEPER_ID] ==> #[trigger] keep(v)) {
            let k = choose|i: int|
                0 <= i < strategies.len() && (#[trigger] strategies[i]).kind
                    == StrategyKind::GoalKeeper && strategies[i].ids == seq![KEEPER_ID];
            if k < before.len() {
                assert(before[k] == strategies[k]);
                assert(keeper_pinned(before));
                let w = choose|i: int|
                    0 <= i < kept.len() && (#[trigger] kept[i]).kind == StrategyKind::GoalKeeper
                        && kept[i].ids == seq![KEEPER_ID];
                assert(out[w] == kept[w]);
            } else {
                assert(keep(strategies[k]));
                assert(out[out.len() - 1] == strategies[k]);
            }
        }
    }
}

/// Sending the receivers away keeps the rule of the manager and the
/// goalkeeper strategy.
pub proof fn lemma_without_receivers(strategies: Seq<StrategyView>)
    ensures
        well_formed(strategies) ==> well_formed(spec_without_receivers(strategies)),
        keeper_pinned(strategies) ==> keeper_pinned(spec_without_receivers(strategies)),
{
    lemma_kept(strategies, not_receiver());
    assert forall|v: StrategyView|
        v.kind == StrategyKind::GoalKeeper && v.ids == seq![KEEPER_ID] implies #[trigger] not_receiver()(
        v,
    ) by {}
}

/// Sending the strategies without a robot away keeps the rule of the manager
/// and the goalkeeper strategy.
pub proof fn lemma_without_idle(strategies: Seq<StrategyView>)
    ensures
        well_formed(strategies) ==> well_formed(spec_without_idle(strategies)),
        keeper_pinned(strategies) ==> keeper_pinned(spec_without_idle(strategies)),
{
    lemma_kept(strategies, not_idle());
    assert forall|v: StrategyView|
        v.kind == StrategyKind::GoalKeeper && v.ids == seq![KEEPER_ID] implies #[trigger] not_idle()(
        v,
    ) by {
        assert(seq![KEEPER_ID].len() == 1);
    }
}

/// The strategies after the first `upto` robots of `ids` have left the
/// strategies that hold them.
pub open spec fn spec_detach_all(strategies: Seq<StrategyView>, ids: Seq<u8>, upto: int) -> Seq<
    StrategyView,
>
    decreases upto,
{
    if upto <= 0 {
        strategies
    } else {
        spec_detach(spec_detach_all(strategies, ids, upto - 1), ids[upto - 1])
    }
}

/// Taking several robots out of their strategies keeps the rule of the
/// manager; afterwards none of them belongs to a strategy. It keeps the
/// goalkeeper strategy if the goalkeeper is not among them.
pub proof fn lemma_detach_all(strategies: Seq<StrategyView>, ids: Seq<u8>, upto: int)
    requires
        0 <= upto <= ids.len(),
    ensures
        well_formed(strategies) ==> well_formed(spec_detach_all(strategies, ids, upto)),
        well_formed(strategies) ==> forall|k: int|
            0 <= k < upto ==> spec_occurrences(
                spec_detach_all(strategies, ids, upto),
                #[trigger] ids[k],
            ) == 0,
        keeper_pinned(strategies) && (forall|k: int| 0 <= k < upto ==> ids[k] != KEEPER_ID)
            ==> keeper_pinned(spec_detach_all(strategies, ids, upto)),
    decreases upto,
{
    if upto > 0 {
        lemma_detach_all(strategies, ids, upto - 1);
        let before = spec_detach_all(strategies, ids, upto - 1);
        if well_formed(strategies) {
            lemma_detach_well_formed(before, ids[upto - 1]);
            assert forall|k: int| 0 <= k < upto implies spec_occurrences(
                spec_detach_all(strategies, ids, upto),
                #[trigger] ids[k],
            ) == 0 by {
                if k < upto - 1 && ids[k] != ids[upto - 1] {
                    assert(spec_occurrences(before, ids[k]) == 0);
                }
            }
        }
        if keeper_pinned(strategies) && (forall|k: int| 0 <= k < upto ==> ids[k] != KEEPER_ID) {
            lemma_detach_keeper(before, ids[upto - 1]);
        }
    }
}

/// A new strategy of robots that belong to no strategy, none of them named
/// twice, keeps the rule of the manager.
pub proof fn lemma_push_well_formed(strategies: Seq<StrategyView>, strategy: StrategyView)
    requires
        well_formed(strategies),
        shaped(strategy),
        forall|id: u8| spec_count_in(strategy.ids, id) <= 1,
        forall|k: int|
            0 <= k < strategy.ids.len() ==> spec_occurrences(strategies, #[trigger] strategy.ids[k])
                == 0,
    ensures
        well_formed(strategies.push(strategy)),
{
    let out = strategies.push(strategy);
    assert forall|id: u8| spec_occurrences(out, id) <= 1 by {
        lemma_occurrences_push(strategies, strategy, id);
        lemma_count_contains(strategy.ids, id);
        assert(spec_occurrences(strategies, id) <= 1);
        if strategy.ids.contains(id) {
            let k = choose|k: int| 0 <= k < strategy.ids.len() && strategy.ids[k] == id;
            assert(spec_occurrences(strategies, strategy.ids[k]) == 0);
        }
    }
    assert forall|i: int| 0 <= i < out.len() implies shaped(#[trigger] out[i]) by {
        if i < strategies.len() {
            assert(out[i] == strategies[i]);
        }
    }
}

/// A strategy more keeps the goalkeeper strategy.
pub proof fn lemma_push_keeper(strategies: Seq<StrategyView>, strategy: StrategyView)
    requires
        keeper_pinned(strategies),
    ensures
        keeper_pinned(strategies.push(strategy)),
{
    let k = choose|i: int|
        0 <= i < strategies.len() && (#[trigger] strategies[i]).kind == StrategyKind::GoalKeeper
            && strategies[i].ids == seq![KEEPER_ID];
    assert(strategies.push(strategy)[k] == strategies[k]);
}

/// Strategies that own the same robots as strategies under the rule, one by
/// one, and are of kinds that take as many robots, are under the rule.
pub proof fn lemma_same_owners(before: Seq<StrategyView>, after: Seq<StrategyView>)
    requires
        before.len() == after.len(),
        forall|i: int| 0 <= i < before.len() ==> (#[trigger] after[i]).ids == before[i].ids,
    ensures
        forall|id: u8| spec_occurrences(after, id) == spec_occurrences(before, id),
    decreases before.len(),
{
    if before.len() > 0 {
        assert forall|i: int| 0 <= i < before.drop_last().len() implies (
        #[trigger] after.drop_last()[i]).ids == before.drop_last()[i].ids by {
            assert(after.drop_last()[i] == after[i]);
            assert(before.drop_last()[i] == before[i]);
        }
        lemma_same_owners(before.drop_last(), after.drop_last());
        assert(after[after.len() - 1].ids == before[before.len() - 1].ids);
        assert forall|id: u8| spec_occurrences(after, id) == spec_occurrences(before, id) by {
            assert(spec_occurrences(after.drop_last(), id) == spec_occurrences(
                before.drop_last(),
                id,
            ));
            assert(after.last().ids == before.last().ids);
        }
    } else {
        assert forall|id: u8| spec_occurrences(after, id) == spec_occurrences(before, id) by {}
    }
}

/// No robot occurs twice in `ids`.
pub open spec fn distinct(ids: Seq<u8>) -> bool {
    forall|i: int, j: int| 0 <= i < j < ids.len() ==> ids[i] != ids[j]
}

/// A list without repetition names no robot twice.
pub proof fn lemma_distinct_counts(ids: Seq<u8>, id: u8)
    requires
        distinct(ids),
    ensures
        spec_count_in(ids, id) <= 1,
    decreases ids.len(),
{
    if ids.len() > 0 {
        assert(distinct(ids.drop_last())) by {
            assert forall|i: int, j: int| 0 <= i < j < ids.drop_last().len() implies ids.drop_last()[i]
                != ids.drop_last()[j] by {
                assert(ids[i] != ids[j]);
            }
        }
        lemma_distinct_counts(ids.drop_last(), id);
        if ids.last() == id {
            lemma_count_contains(ids.drop_last(), id);
            if ids.drop_last().contains(id) {
                let k = choose|k: int| 0 <= k < ids.drop_last().len() && ids.drop_last()[k] == id;
                assert(ids[k] != ids[ids.len() - 1]);
            }
        }
    }
}

/// A list that names no robot twice is without repetition.
pub proof fn lemma_counts_distinct(ids: Seq<u8>)
    requires
        forall|id: u8| spec_count_in(ids, id) <= 1,
    ensures
        distinct(ids),
{
    assert forall|i: int, j: int| 0 <= i < j < ids.len() implies ids[i] != ids[j] by {
        if ids[i] == ids[j] {
            let id = ids[i];
            lemma_count_remove(ids, j, id);
            assert(ids.remove(j)[i] == id);
            lemma_count_contains(ids.remove(j), id);
            assert(spec_count_in(ids, id) <= 1);
        }
    }
}

/// Whether a strategy may stay behind `kept`: it owns a robot, names none
/// twice, and names none that one of `kept` owns.
pub open spec fn may_stay(kept: Seq<StrategyView>, strategy: StrategyView) -> bool {
    &&& strategy.ids.len() > 0
    &&& distinct(strategy.ids)
    &&& forall|k: int|
        0 <= k < strategy.ids.len() ==> spec_holder(kept, #[trigger] strategy.ids[k]) == kept.len()
}

/// `strategies` without the offenders: a strategy goes if it owns no robot,
/// names a robot twice, or names a robot of a strategy before it that stays.
pub open spec fn spec_without_offenders(strategies: Seq<StrategyView>) -> Seq<StrategyView>
    decreases strategies.len(),
{
    if strategies.len() == 0 {
        strategies
    } else {
        let kept = spec_without_offenders(strategies.drop_last());
        if may_stay(kept, strategies.last()) {
            kept.push(strategies.last())
        } else {
            kept
        }
    }
}

/// Once the offenders are gone no robot occurs twice and no strategy is
/// without a robot, whatever the strategies were; strategies under the rule
/// of the manager have no offenders.
pub proof fn lemma_without_offenders(strategies: Seq<StrategyView>)
    ensures
        no_robot_twice(spec_without_offenders(strategies)),
        forall|i: int|
            0 <= i < spec_without_offenders(strategies).len() ==> (
            #[trigger] spec_without_offenders(strategies)[i]).ids.len() > 0,
        well_formed(strategies) ==> spec_without_offenders(strategies) == strategies,
    decreases strategies.len(),
{
    let out = spec_without_offenders(strategies);
    if strategies.len() > 0 {
        let before = strategies.drop_last();
        let last = strategies.last();
        lemma_without_offenders(before);
        let kept = spec_without_offenders(before);
        if may_stay(kept, last) {
            assert forall|id: u8| spec_occurrences(out, id) <= 1 by {
                lemma_occurrences_push(kept, last, id);
                lemma_distinct_counts(last.ids, id);
                lemma_count_contains(last.ids, id);
                assert(spec_occurrences(kept, id) <= 1);
                if last.ids.contains(id) {
                    let k = choose|k: int| 0 <= k < last.ids.len() && last.ids[k] == id;
                    assert(spec_holder(kept, last.ids[k]) == kept.len());
                    lemma_holder(kept, id);
                }
            }
            assert forall|i: int| 0 <= i < out.len() implies (#[trigger] out[i]).ids.len() > 0 by {
                if i < kept.len() {
                    assert(out[i] == kept[i]);
                }
            }
        }
        if well_formed(strategies) {
            assert(well_formed(before)) by {
                assert forall|id: u8| spec_occurrences(before, id) <= 1 by {
                    assert(spec_occurrences(strategies, id) <= 1);
                }
                assert forall|i: int| 0 <= i < before.len() implies shaped(#[trigger] before[i]) by {
                    assert(before[i] == strategies[i]);
                }
            }
            assert(kept == before);
            assert(shaped(strategies[strategies.len() - 1]));
            assert(may_stay(kept, last)) by {
                assert forall|id: u8| spec_count_in(last.ids, id) <= 1 by {
                    assert(spec_occurrences(strategies, id) <= 1);
                }
                lemma_counts_distinct(last.ids);
                assert forall|k: int| 0 <= k < last.ids.len() implies spec_holder(
                    kept,
                    #[trigger] last.ids[k],
                ) == kept.len() by {
                    let id = last.ids[k];
                    lemma_holder(before, id);
                    let h = spec_holder(before, id);
                    if h < before.len() {
                        assert(spec_occurrences(strategies, id) <= 1);
                        lemma_count_contains(before[h].ids, id);
                        lemma_count_contains(last.ids, id);
                        lemma_occurrences_at_least(before, h, h, id);
                    }
                }
            }
            assert(out =~= strategies);
        }
    }
}

/// Every strategy that is left once the offenders are gone was there before.
pub proof fn lemma_offenders_subset(strategies: Seq<StrategyView>)
    ensures
        forall|i: int|
            0 <= i < spec_without_offenders(strategies).len() ==> exists|j: int|
                0 <= j < strategies.len() && strategies[j] == #[trigger] spec_without_offenders(
                    strategies,
                )[i],
    decreases strategies.len(),
{
    let out = spec_without_offenders(strategies);
    if strategies.len() > 0 {
        let before = strategies.drop_last();
        lemma_offenders_subset(before);
        let kept = spec_without_offenders(before);
        assert forall|i: int| 0 <= i < out.len() implies exists|j: int|
            0 <= j < strategies.len() && strategies[j] == #[trigger] out[i] by {
            if i < kept.len() {
                assert(out[i] == kept[i]);
                let j = choose|j: int| 0 <= j < before.len() && before[j] == kept[i];
                assert(strategies[j] == out[i]);
            } else {
                assert(strategies[strategies.len() - 1] == out[i]);
            }
        }
    }
}

} // verus!
