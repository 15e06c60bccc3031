//! Where the robots of the strategies come from. When the manager gives the
//! robots their strategies, a strategy that it makes owns allies that are on
//! the field, and marks an enemy that is on the field; the one exception is
//! the goalkeeper strategy, which is made for the goalkeeper whether it is
//! seen or not. This module states that of two lists of strategies, and
//! proves it of the moves by which the manager hands robots round. It also
//! states which robots a list of strategies may own that another did not, and
//! proves that a message brings no robot but the one that it asks to move.

use vstd::prelude::*;
use crate::bigbro::lemma_first_in_role;
use crate::bigbro::spec_first_in_role;
use crate::bigbro::spec_handle_message;
use crate::bigbro::spec_moved_robot;
use crate::bigbro::spec_process_messages;
use crate::message::AttackerMessage;
use crate::message::Message;
use crate::message::MessageData;
use crate::partition::lemma_count_contains;
use crate::partition::lemma_count_without;
use crate::partition::lemma_count_without_first;
use crate::partition::lemma_holder;
use crate::partition::lemma_kept;
use crate::partition::spec_detach;
use crate::partition::spec_fresh;
use crate::partition::spec_detach_all;
use crate::partition::spec_holder;
use crate::partition::spec_move_to_existing;
use crate::partition::spec_move_to_new;
use crate::partition::spec_release;
use crate::partition::spec_without;
use crate::partition::spec_without_first;
use crate::partition::spec_without_receivers;
use crate::partition::not_receiver;
use crate::strategy::Role;
use crate::strategy::StrategyKind;
use crate::strategy::StrategyView;
use crate::utils::KEEPER_ID;
use crate::world::World;

verus! {

/// Every robot of the strategy is an ally on the field, but for the
/// goalkeeper in a goalkeeper strategy, and the enemy that a marking
/// strategy marks is on the field.
pub open spec fn from_field(strategy: StrategyView, world: World) -> bool {
    &&& forall|k: int|
        0 <= k < strategy.ids.len() ==> world.allies_bot.spec_get(#[trigger] strategy.ids[k])
            is Some || (strategy.kind == StrategyKind::GoalKeeper && strategy.ids[k] == KEEPER_ID)
    &&& match strategy.kind {
        StrategyKind::BotMarking { enemy_id } => world.enemies_bot.spec_get(enemy_id) is Some,
        _ => true,
    }
}

/// `part` is what is left of `whole` after robots were taken from it: the
/// same kind of strategy, with no robot that `whole` does not own.
pub open spec fn left_of(whole: StrategyView, part: StrategyView) -> bool {
    &&& part.kind == whole.kind
    &&& forall|k: int| 0 <= k < part.ids.len() ==> whole.ids.contains(#[trigger] part.ids[k])
}

/// Each strategy of `after` is what is left of a strategy of `before`, or
/// was made from the field.
pub open spec fn drawn(before: Seq<StrategyView>, after: Seq<StrategyView>, world: World) -> bool {
    forall|k: int|
        0 <= k < after.len() ==> from_field(#[trigger] after[k], world) || exists|j: int|
            0 <= j < before.len() && left_of(#[trigger] before[j], after[k])
}

/// A strategy is what is left of itself.
pub proof fn lemma_left_of_itself(strategy: StrategyView)
    ensures
        left_of(strategy, strategy),
{
}

/// What is left of a strategy made from the field is made from the field,
/// and what is left of what is left of a strategy is left of that strategy.
pub proof fn lemma_left_of(first: StrategyView, second: StrategyView, third: StrategyView, world: World)
    requires
        left_of(second, third),
    ensures
        from_field(second, world) ==> from_field(third, world),
        left_of(first, second) ==> left_of(first, third),
{
    if from_field(second, world) {
        assert forall|k: int| 0 <= k < third.ids.len() implies world.allies_bot.spec_get(
            #[trigger] third.ids[k],
        ) is Some || (third.kind == StrategyKind::GoalKeeper && third.ids[k] == KEEPER_ID) by {
            assert(second.ids.contains(third.ids[k]));
            let w = choose|w: int| 0 <= w < second.ids.len() && second.ids[w] == third.ids[k];
            assert(world.allies_bot.spec_get(second.ids[w]) is Some || (second.kind
                == StrategyKind::GoalKeeper && second.ids[w] == KEEPER_ID));
        }
    }
    if left_of(first, second) {
        assert forall|k: int| 0 <= k < third.ids.len() implies first.ids.contains(
            #[trigger] third.ids[k],
        ) by {
            assert(second.ids.contains(third.ids[k]));
            let w = choose|w: int| 0 <= w < second.ids.len() && second.ids[w] == third.ids[k];
            assert(first.ids.contains(second.ids[w]));
        }
    }
}

/// Strategies are drawn from themselves.
pub proof fn lemma_drawn_same(strategies: Seq<StrategyView>, world: World)
    ensures
        drawn(strategies, strategies, world),
{
    assert forall|k: int| 0 <= k < strategies.len() implies from_field(
        #[trigger] strategies[k],
        world,
    ) || exists|j: int| 0 <= j < strategies.len() && left_of(#[trigger] strategies[j], strategies[k]) by {
        lemma_left_of_itself(strategies[k]);
    }
}

/// What is drawn from strategies that are drawn from others is drawn from
/// those.
pub proof fn lemma_drawn_chain(
    first: Seq<StrategyView>,
    second: Seq<StrategyView>,
    third: Seq<StrategyView>,
    world: World,
)
    requires
        drawn(first, second, world),
        drawn(second, third, world),
    ensures
        drawn(first, third, world),
{
    assert forall|k: int| 0 <= k < third.len() implies from_field(#[trigger] third[k], world)
        || exists|j: int| 0 <= j < first.len() && left_of(#[trigger] first[j], third[k]) by {
        if !from_field(third[k], world) {
            let m = choose|m: int| 0 <= m < second.len() && left_of(#[trigger] second[m], third[k]);
            lemma_left_of(second[m], second[m], third[k], world);
            assert(!from_field(second[m], world));
            let j = choose|j: int| 0 <= j < first.len() && left_of(#[trigger] first[j], second[m]);
            lemma_left_of(first[j], second[m], third[k], world);
        }
    }
}

/// A strategy that is put a part of its robots is what is left of it,
/// whether it takes the list or not.
pub proof fn lemma_put_part(strategy: StrategyView, ids: Seq<u8>)
    requires
        forall|k: int| 0 <= k < ids.len() ==> strategy.ids.contains(#[trigger] ids[k]),
    ensures
        left_of(strategy, strategy.spec_put_ids(ids)),
{
}

/// A list without occurrences of a robot names no robot that was not in it.
pub proof fn lemma_without_part(ids: Seq<u8>, gone: u8)
    ensures
        forall|k: int|
            0 <= k < spec_without_first(ids, gone).len() ==> ids.contains(
                #[trigger] spec_without_first(ids, gone)[k],
            ),
        forall|k: int|
            0 <= k < spec_without(ids, gone).len() ==> ids.contains(
                #[trigger] spec_without(ids, gone)[k],
            ),
{
    let once = spec_without_first(ids, gone);
    assert forall|k: int| 0 <= k < once.len() implies ids.contains(#[trigger] once[k]) by {
        lemma_count_contains(once, once[k]);
        lemma_count_without_first(ids, gone, once[k]);
        lemma_count_contains(ids, once[k]);
    }
    let never = spec_without(ids, gone);
    assert forall|k: int| 0 <= k < never.len() implies ids.contains(#[trigger] never[k]) by {
        lemma_count_contains(never, never[k]);
        lemma_count_without(ids, gone, never[k]);
        lemma_count_contains(ids, never[k]);
    }
}

/// One more strategy, made from the field, is drawn from the others.
pub proof fn lemma_push_drawn(strategies: Seq<StrategyView>, strategy: StrategyView, world: World)
    requires
        from_field(strategy, world),
    ensures
        drawn(strategies, strategies.push(strategy), world),
{
    let out = strategies.push(strategy);
    assert forall|k: int| 0 <= k < out.len() implies from_field(#[trigger] out[k], world)
        || exists|j: int| 0 <= j < strategies.len() && left_of(#[trigger] strategies[j], out[k]) by {
        if k < strategies.len() {
            lemma_left_of_itself(strategies[k]);
        }
    }
}

/// The move of a robot to a new strategy that was made from the field
/// leaves strategies that are drawn from those before.
pub proof fn lemma_move_to_new_drawn(
    strategies: Seq<StrategyView>,
    bot_id: u8,
    strategy: StrategyView,
    world: World,
)
    requires
        from_field(strategy, world),
    ensures
        drawn(strategies, spec_move_to_new(strategies, bot_id, strategy), world),
{
    let out = spec_move_to_new(strategies, bot_id, strategy);
    let h = spec_holder(strategies, bot_id);
    lemma_holder(strategies, bot_id);
    assert forall|k: int| 0 <= k < out.len() implies from_field(#[trigger] out[k], world)
        || exists|j: int| 0 <= j < strategies.len() && left_of(#[trigger] strategies[j], out[k]) by {
        if k < strategies.len() && out[k] != strategy {
            if k == h {
                lemma_without_part(strategies[h].ids, bot_id);
                lemma_put_part(strategies[h], spec_without_first(strategies[h].ids, bot_id));
            } else {
                lemma_left_of_itself(strategies[k]);
            }
        }
    }
}

/// Taking a robot out of the strategy that holds it leaves strategies that
/// are drawn from those before.
pub proof fn lemma_detach_drawn(strategies: Seq<StrategyView>, bot_id: u8, world: World)
    ensures
        drawn(strategies, spec_detach(strategies, bot_id), world),
{
    let out = spec_detach(strategies, bot_id);
    let h = spec_holder(strategies, bot_id);
    lemma_holder(strategies, bot_id);
    assert forall|k: int| 0 <= k < out.len() implies from_field(#[trigger] out[k], world)
        || exists|j: int| 0 <= j < strategies.len() && left_of(#[trigger] strategies[j], out[k]) by {
        if h < strategies.len() {
            if strategies[h].ids.len() == 1 {
                let j = if k < h {
                    k
                } else {
                    k + 1
                };
                assert(out[k] == strategies[j]);
                lemma_left_of_itself(strategies[j]);
            } else if k == h {
                lemma_without_part(strategies[h].ids, bot_id);
                lemma_put_part(strategies[h], spec_without(strategies[h].ids, bot_id));
            } else {
                lemma_left_of_itself(strategies[k]);
            }
        } else {
            lemma_left_of_itself(strategies[k]);
        }
    }
}

/// Taking several robots out of their strategies leaves strategies that are
/// drawn from those before.
pub proof fn lemma_detach_all_drawn(
    strategies: Seq<StrategyView>,
    ids: Seq<u8>,
    upto: int,
    world: World,
)
    requires
        0 <= upto <= ids.len(),
    ensures
        drawn(strategies, spec_detach_all(strategies, ids, upto), world),
    decreases upto,
{
    if upto > 0 {
        lemma_detach_all_drawn(strategies, ids, upto - 1, world);
        let before = spec_detach_all(strategies, ids, upto - 1);
        lemma_detach_drawn(before, ids[upto - 1], world);
        lemma_drawn_chain(strategies, before, spec_detach(before, ids[upto - 1]), world);
    } else {
        lemma_drawn_same(strategies, world);
    }
}

/// A strategy of `strategies` owns the robot `id`.
pub open spec fn owned(strategies: Seq<StrategyView>, id: u8) -> bool {
    exists|j: int| 0 <= j < strategies.len() && (#[trigger] strategies[j]).ids.contains(id)
}

/// Every robot that a strategy of `after` owns is owned by a strategy of
/// `before` or is one of `new`.
pub open spec fn owners_within(
    before: Seq<StrategyView>,
    after: Seq<StrategyView>,
    new: Set<u8>,
) -> bool {
    forall|k: int, i: int|
        0 <= k < after.len() && 0 <= i < after[k].ids.len() ==> new.contains(
            #[trigger] after[k].ids[i],
        ) || owned(before, after[k].ids[i])
}

/// What comes of strategies that came of others, with the same newcomers,
/// came of those.
pub proof fn lemma_owners_chain(
    first: Seq<StrategyView>,
    second: Seq<StrategyView>,
    third: Seq<StrategyView>,
    new: Set<u8>,
)
    requires
        owners_within(first, second, new),
        owners_within(second, third, new),
    ensures
        owners_within(first, third, new),
{
    assert forall|k: int, i: int| 0 <= k < third.len() && 0 <= i < third[k].ids.len() implies new.contains(
        #[trigger] third[k].ids[i],
    ) || owned(first, third[k].ids[i]) by {
        let id = third[k].ids[i];
        if !new.contains(id) {
            assert(owned(second, id));
            let j = choose|j: int| 0 <= j < second.len() && (#[trigger] second[j]).ids.contains(id);
            let w = choose|w: int| 0 <= w < second[j].ids.len() && second[j].ids[w] == id;
            assert(new.contains(second[j].ids[w]) || owned(first, second[j].ids[w]));
        }
    }
}

/// Strategies of which each owns robots of one strategy of `before` only,
/// or newcomers only, own no robot that is neither owned in `before` nor a
/// newcomer.
pub proof fn lemma_parts_owners(before: Seq<StrategyView>, after: Seq<StrategyView>, new: Set<u8>)
    requires
        forall|k: int|
            0 <= k < after.len() ==> (forall|i: int|
                0 <= i < (#[trigger] after[k]).ids.len() ==> new.contains(after[k].ids[i]))
                || exists|j: int|
                0 <= j < before.len() && forall|i: int|
                    0 <= i < after[k].ids.len() ==> (#[trigger] before[j]).ids.contains(
                        after[k].ids[i],
                    ),
    ensures
        owners_within(before, after, new),
{
    assert forall|k: int, i: int| 0 <= k < after.len() && 0 <= i < after[k].ids.len() implies new.contains(
        #[trigger] after[k].ids[i],
    ) || owned(before, after[k].ids[i]) by {
        let part = after[k];
        if !(forall|i: int| 0 <= i < part.ids.len() ==> new.contains(part.ids[i])) {
            let j = choose|j: int|
                0 <= j < before.len() && forall|i: int|
                    0 <= i < after[k].ids.len() ==> (#[trigger] before[j]).ids.contains(
                        after[k].ids[i],
                    );
            assert(before[j].ids.contains(after[k].ids[i]));
        }
    }
}

/// Strategies that are drawn from others own no robot that was not owned
/// before, but for the goalkeeper and the allies on the field.
pub proof fn lemma_drawn_owners(
    before: Seq<StrategyView>,
    after: Seq<StrategyView>,
    world: World,
    new: Set<u8>,
)
    requires
        drawn(before, after, world),
        new.contains(KEEPER_ID),
        forall|id: u8| world.allies_bot.spec_get(id) is Some ==> new.contains(id),
    ensures
        owners_within(before, after, new),
{
    assert forall|k: int| 0 <= k < after.len() implies (forall|i: int|
        0 <= i < (#[trigger] after[k]).ids.len() ==> new.contains(after[k].ids[i])) || exists|j: int|
        0 <= j < before.len() && forall|i: int|
            0 <= i < after[k].ids.len() ==> (#[trigger] before[j]).ids.contains(after[k].ids[i]) by {
        if from_field(after[k], world) {
            assert forall|i: int| 0 <= i < after[k].ids.len() implies new.contains(
                after[k].ids[i],
            ) by {
                assert(world.allies_bot.spec_get(after[k].ids[i]) is Some || after[k].ids[i]
                    == KEEPER_ID);
            }
        } else {
            let j = choose|j: int| 0 <= j < before.len() && left_of(#[trigger] before[j], after[k]);
            assert forall|i: int| 0 <= i < after[k].ids.len() implies before[j].ids.contains(
                after[k].ids[i],
            ) by {}
        }
    }
    lemma_parts_owners(before, after, new);
}

/// The move of a robot to a new strategy brings no robot but those of the
/// new strategy.
pub proof fn lemma_move_to_new_owners(
    strategies: Seq<StrategyView>,
    bot_id: u8,
    strategy: StrategyView,
    new: Set<u8>,
)
    requires
        forall|i: int| 0 <= i < strategy.ids.len() ==> new.contains(strategy.ids[i]),
    ensures
        owners_within(strategies, spec_move_to_new(strategies, bot_id, strategy), new),
{
    let out = spec_move_to_new(strategies, bot_id, strategy);
    let h = spec_holder(strategies, bot_id);
    lemma_holder(strategies, bot_id);
    assert forall|k: int| 0 <= k < out.len() implies (forall|i: int|
        0 <= i < (#[trigger] out[k]).ids.len() ==> new.contains(out[k].ids[i])) || exists|j: int|
        0 <= j < strategies.len() && forall|i: int|
            0 <= i < out[k].ids.len() ==> (#[trigger] strategies[j]).ids.contains(out[k].ids[i]) by {
        if k < strategies.len() && out[k] != strategy {
            if k == h {
                lemma_without_part(strategies[h].ids, bot_id);
                lemma_put_part(strategies[h], spec_without_first(strategies[h].ids, bot_id));
            } else {
                lemma_left_of_itself(strategies[k]);
            }
            assert(left_of(strategies[k], out[k]));
        }
    }
    lemma_parts_owners(strategies, out, new);
}

/// Taking a robot out of a strategy brings no robot.
pub proof fn lemma_release_owners(
    strategies: Seq<StrategyView>,
    at: int,
    held: int,
    bot_id: u8,
    new: Set<u8>,
)
    requires
        0 <= at < strategies.len(),
    ensures
        owners_within(strategies, spec_release(strategies, at, held, bot_id), new),
{
    let out = spec_release(strategies, at, held, bot_id);
    assert forall|k: int| 0 <= k < out.len() implies (forall|i: int|
        0 <= i < (#[trigger] out[k]).ids.len() ==> new.contains(out[k].ids[i])) || exists|j: int|
        0 <= j < strategies.len() && forall|i: int|
            0 <= i < out[k].ids.len() ==> (#[trigger] strategies[j]).ids.contains(out[k].ids[i]) by {
        if held == 1 {
            let j = if k < at {
                k
            } else {
                k + 1
            };
            assert(out[k] == strategies[j]);
            lemma_left_of_itself(strategies[j]);
            assert(left_of(strategies[j], out[k]));
        } else if k == at {
            lemma_without_part(strategies[at].ids, bot_id);
            lemma_put_part(strategies[at], spec_without(strategies[at].ids, bot_id));
            assert(left_of(strategies[k], out[k]));
        } else {
            lemma_left_of_itself(strategies[k]);
            assert(left_of(strategies[k], out[k]));
        }
    }
    lemma_parts_owners(strategies, out, new);
}

/// The move of a robot to a strategy that the manager holds brings no robot
/// but that one.
pub proof fn lemma_move_to_existing_owners(
    strategies: Seq<StrategyView>,
    bot_id: u8,
    strategy_index: int,
    new: Set<u8>,
)
    requires
        0 <= strategy_index < strategies.len(),
        new.contains(bot_id),
    ensures
        owners_within(strategies, spec_move_to_existing(strategies, bot_id, strategy_index), new),
{
    let h = spec_holder(strategies, bot_id);
    lemma_holder(strategies, bot_id);
    let target = strategies[strategy_index];
    let joined = strategies.update(
        strategy_index,
        target.spec_put_ids(target.ids.push(bot_id)),
    );
    assert forall|k: int, i: int| 0 <= k < joined.len() && 0 <= i < joined[k].ids.len() implies new.contains(
        #[trigger] joined[k].ids[i],
    ) || owned(strategies, joined[k].ids[i]) by {
        let id = joined[k].ids[i];
        if id != bot_id {
            if k == strategy_index {
                if target.kind.spec_accepts(target.ids.push(bot_id)) {
                    assert(target.ids.push(bot_id)[i] == id);
                    assert(target.ids[i] == id);
                }
            }
            assert(strategies[k].ids.contains(id));
        }
    }
    if h < strategies.len() {
        lemma_release_owners(joined, h, strategies[h].ids.len() as int, bot_id, new);
        lemma_owners_chain(
            strategies,
            joined,
            spec_move_to_existing(strategies, bot_id, strategy_index),
            new,
        );
    }
}

/// Strategies that are all among `before` bring no robot.
pub proof fn lemma_chosen_owners(before: Seq<StrategyView>, after: Seq<StrategyView>, new: Set<u8>)
    requires
        forall|k: int|
            0 <= k < after.len() ==> exists|j: int|
                0 <= j < before.len() && before[j] == #[trigger] after[k],
    ensures
        owners_within(before, after, new),
{
    assert forall|k: int| 0 <= k < after.len() implies (forall|i: int|
        0 <= i < (#[trigger] after[k]).ids.len() ==> new.contains(after[k].ids[i])) || exists|j: int|
        0 <= j < before.len() && forall|i: int|
            0 <= i < after[k].ids.len() ==> (#[trigger] before[j]).ids.contains(after[k].ids[i]) by {
        let j = choose|j: int| 0 <= j < before.len() && before[j] == after[k];
        lemma_left_of_itself(before[j]);
        assert(left_of(before[j], after[k]));
    }
    lemma_parts_owners(before, after, new);
}

/// Dealing with a message brings no robot but the one that it moves.
pub proof fn lemma_handle_message_owners(
    strategies: Seq<StrategyView>,
    message: MessageData,
    new: Set<u8>,
)
    requires
        spec_moved_robot(message) is Some ==> new.contains(spec_moved_robot(message).unwrap()),
    ensures
        owners_within(strategies, spec_handle_message(strategies, message), new),
{
    match message.message {
        Message::WantToGoRight => {
            lemma_move_to_new_owners(
                strategies,
                message.id,
                spec_fresh(StrategyKind::GoRight, seq![message.id]),
                new,
            );
        },
        Message::WantToGoLeft => {
            lemma_move_to_new_owners(
                strategies,
                message.id,
                spec_fresh(StrategyKind::GoLeft, seq![message.id]),
                new,
            );
        },
        Message::WantToBeAligned => {
            let at = spec_first_in_role(strategies, Role::Aligned);
            lemma_first_in_role(strategies, Role::Aligned);
            if at < strategies.len() {
                lemma_move_to_existing_owners(strategies, message.id, at, new);
            } else {
                lemma_move_to_new_owners(
                    strategies,
                    message.id,
                    spec_fresh(StrategyKind::Aligned, seq![message.id]),
                    new,
                );
            }
        },
        Message::AttackerMessage(AttackerMessage::WantToPassBallTo(target, line)) => {
            lemma_move_to_new_owners(
                strategies,
                target,
                spec_fresh(
                    StrategyKind::Receiver { passer_id: message.id, passing_trajectory: line },
                    seq![target],
                ),
                new,
            );
        },
        Message::AttackerMessage(AttackerMessage::BallPassed(target)) => {
            lemma_move_to_new_owners(
                strategies,
                target,
                spec_fresh(StrategyKind::Attacker, seq![target]),
                new,
            );
        },
        Message::AttackerMessage(AttackerMessage::NoNeedReceiver) => {
            lemma_kept(strategies, not_receiver());
            lemma_chosen_owners(strategies, spec_without_receivers(strategies), new);
        },
    }
}

/// Dealing with messages brings no robot but those that they move.
pub proof fn lemma_process_messages_owners(
    strategies: Seq<StrategyView>,
    messages: Seq<MessageData>,
    upto: int,
    new: Set<u8>,
)
    requires
        0 <= upto <= messages.len(),
        forall|k: int|
            0 <= k < upto && spec_moved_robot(#[trigger] messages[k]) is Some ==> new.contains(
                spec_moved_robot(messages[k]).unwrap(),
            ),
    ensures
        owners_within(strategies, spec_process_messages(strategies, messages, upto), new),
    decreases upto,
{
    if upto > 0 {
        lemma_process_messages_owners(strategies, messages, upto - 1, new);
        let before = spec_process_messages(strategies, messages, upto - 1);
        lemma_handle_message_owners(before, messages[upto - 1], new);
        lemma_owners_chain(strategies, before, spec_handle_message(before, messages[upto - 1]), new);
    } else {
        assert forall|k: int, i: int|
            0 <= k < strategies.len() && 0 <= i < strategies[k].ids.len() implies new.contains(
            #[trigger] strategies[k].ids[i],
        ) || owned(strategies, strategies[k].ids[i]) by {
            assert(strategies[k].ids.contains(strategies[k].ids[i]));
        }
    }
}

} // verus!
