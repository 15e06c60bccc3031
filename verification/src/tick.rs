//! One tick of the manager: the robots are given their strategies, what the
//! strategies ask for is dealt with, and every strategy makes its step.

use vstd::prelude::*;
use crate::action::lemma_cleared;
use crate::action::spec_cleared;
use crate::action::Action;
use crate::action::ActionWrapper;
use crate::assignment::lemma_attribute_strategies;
use crate::assignment::spec_attribute_strategies;
use crate::bigbro::lemma_process_messages;
use crate::bigbro::spec_moved_robot;
use crate::bigbro::spec_process_messages;
use crate::bigbro::BigBro;
use crate::message::MessageData;
use crate::origin::lemma_chosen_owners;
use crate::origin::lemma_drawn_owners;
use crate::origin::lemma_drawn_same;
use crate::origin::lemma_owners_chain;
use crate::origin::lemma_process_messages_owners;
use crate::origin::owned;
use crate::origin::owners_within;
use crate::partition::keeper_pinned;
use crate::partition::lemma_kept;
use crate::partition::lemma_offenders_subset;
use crate::partition::lemma_same_owners;
use crate::partition::distinct;
use crate::partition::lemma_without_idle;
use crate::partition::lemma_without_offenders;
use crate::partition::may_stay;
use crate::partition::no_robot_twice;
use crate::partition::spec_without_offenders;
use crate::partition::not_idle;
use crate::partition::shaped;
use crate::partition::spec_kept;
use crate::partition::spec_holder;
use crate::partition::spec_occurrences;
use crate::partition::spec_without_idle;
use crate::partition::well_formed;
use crate::strategy::Strategy;
use crate::strategy::StrategyKind;
use crate::strategy::StrategyView;
use crate::utils::KEEPER_ID;
use crate::world::World;

verus! {

/// What the first `upto` of `strategies` have to tell, in order.
pub open spec fn spec_all_messages(strategies: Seq<StrategyView>, upto: int) -> Seq<MessageData>
    decreases upto,
{
    if upto <= 0 {
        Seq::empty()
    } else {
        spec_all_messages(strategies, upto - 1) + strategies[upto - 1].messages
    }
}

/// The strategies after the robots were given their strategies, if the ball
/// is on the field.
pub open spec fn spec_assigned(strategies: Seq<StrategyView>, world: World) -> Seq<StrategyView> {
    match world.ball {
        Some(ball) => spec_attribute_strategies(strategies, world, ball),
        None => strategies,
    }
}

/// What the strategies tell in this tick, once the robots were given their
/// strategies.
pub open spec fn spec_told(strategies: Seq<StrategyView>, world: World) -> Seq<MessageData> {
    let assigned = spec_assigned(strategies, world);
    spec_all_messages(assigned, assigned.len() as int)
}

/// The strategies as they are when they make their steps: the robots were
/// given their strategies and the messages were dealt with.
pub open spec fn spec_settled(strategies: Seq<StrategyView>, world: World) -> Seq<StrategyView> {
    let told = spec_told(strategies, world);
    spec_process_messages(spec_assigned(strategies, world), told, told.len() as int)
}

/// Each of `strategies` after its step in `world`.
pub open spec fn spec_stepped_all(strategies: Seq<StrategyView>, world: World) -> Seq<
    StrategyView,
> {
    Seq::new(strategies.len(), |i: int| strategies[i].spec_stepped(world))
}

/// The intents after the first `upto` of `strategies` have made their steps,
/// in order.
pub open spec fn spec_actions_after(
    strategies: Seq<StrategyView>,
    world: World,
    actions: Seq<(u8, Action)>,
    upto: int,
) -> Seq<(u8, Action)>
    decreases upto,
{
    if upto <= 0 {
        actions
    } else {
        strategies[upto - 1].spec_step_actions(
            world,
            spec_actions_after(strategies, world, actions, upto - 1),
        )
    }
}

/// The strategies after one tick of the manager: the robots are given their
/// strategies, the messages are dealt with, every strategy makes its step, and
/// the strategies without a robot and the offenders against the rule of the
/// manager go.
pub open spec fn spec_tick(strategies: Seq<StrategyView>, world: World) -> Seq<StrategyView> {
    spec_without_offenders(
        spec_without_idle(spec_stepped_all(spec_settled(strategies, world), world)),
    )
}

/// The intents after one tick of the manager.
pub open spec fn spec_tick_actions(
    strategies: Seq<StrategyView>,
    world: World,
    actions: Seq<(u8, Action)>,
) -> Seq<(u8, Action)> {
    let settled = spec_settled(strategies, world);
    spec_actions_after(settled, world, actions, settled.len() as int)
}

/// No message of the tick asks to move the goalkeeper.
pub open spec fn keeper_left_alone(strategies: Seq<StrategyView>, world: World) -> bool {
    forall|k: int|
        0 <= k < spec_told(strategies, world).len() ==> spec_moved_robot(
            #[trigger] spec_told(strategies, world)[k],
        ) != Some(KEEPER_ID)
}

/// The steps of the strategies keep the rule of the manager and the
/// goalkeeper strategy.
pub proof fn lemma_stepped_all(strategies: Seq<StrategyView>, world: World)
    ensures
        well_formed(strategies) ==> well_formed(spec_stepped_all(strategies, world)),
        keeper_pinned(strategies) ==> keeper_pinned(spec_stepped_all(strategies, world)),
{
    let out = spec_stepped_all(strategies, world);
    assert forall|i: int| 0 <= i < strategies.len() implies (#[trigger] out[i]).ids
        == strategies[i].ids by {}
    lemma_same_owners(strategies, out);
    if well_formed(strategies) {
        assert forall|id: u8| spec_occurrences(out, id) <= 1 by {
            assert(spec_occurrences(strategies, id) <= 1);
        }
        assert forall|i: int| 0 <= i < out.len() implies shaped(#[trigger] out[i]) by {
            assert(shaped(strategies[i]));
        }
    }
    if keeper_pinned(strategies) {
        let k = choose|i: int|
            0 <= i < strategies.len() && (#[trigger] strategies[i]).kind == StrategyKind::GoalKeeper
                && strategies[i].ids == seq![KEEPER_ID];
        assert(out[k] == strategies[k]);
    }
}

/// A tick of the manager keeps its rule: after it, as before it, no robot
/// belongs to two strategies or twice to one, and every strategy owns a
/// robot.
pub proof fn lemma_tick_well_formed(strategies: Seq<StrategyView>, world: World)
    requires
        well_formed(strategies),
    ensures
        well_formed(spec_tick(strategies, world)),
{
    match world.ball {
        Some(ball) => {
            lemma_attribute_strategies(strategies, world, ball);
        },
        None => {},
    }
    let told = spec_told(strategies, world);
    lemma_process_messages(spec_assigned(strategies, world), told, told.len() as int);
    lemma_stepped_all(spec_settled(strategies, world), world);
    lemma_without_idle(spec_stepped_all(spec_settled(strategies, world), world));
    lemma_without_offenders(
        spec_without_idle(spec_stepped_all(spec_settled(strategies, world), world)),
    );
}

/// After a tick of the manager no robot belongs to two strategies or twice
/// to one, and every strategy owns a robot, whatever the strategies were
/// before it.
pub proof fn lemma_tick_no_robot_twice(strategies: Seq<StrategyView>, world: World)
    ensures
        no_robot_twice(spec_tick(strategies, world)),
        forall|i: int|
            0 <= i < spec_tick(strategies, world).len() ==> (#[trigger] spec_tick(
                strategies,
                world,
            )[i]).ids.len() > 0,
{
    lemma_without_offenders(
        spec_without_idle(spec_stepped_all(spec_settled(strategies, world), world)),
    );
}

/// After a tick of a manager under its rule a goalkeeper strategy owns the
/// goalkeeper and nothing else, if the ball is on the field or it was so
/// before the tick, unless a message of the tick asks to move the goalkeeper.
pub proof fn lemma_tick_keeper(strategies: Seq<StrategyView>, world: World)
    requires
        well_formed(strategies),
        world.ball is Some || keeper_pinned(strategies),
        keeper_left_alone(strategies, world),
    ensures
        keeper_pinned(spec_tick(strategies, world)),
{
    match world.ball {
        Some(ball) => {
            lemma_attribute_strategies(strategies, world, ball);
        },
        None => {},
    }
    let told = spec_told(strategies, world);
    lemma_process_messages(spec_assigned(strategies, world), told, told.len() as int);
    lemma_stepped_all(spec_settled(strategies, world), world);
    lemma_without_idle(spec_stepped_all(spec_settled(strategies, world), world));
    lemma_without_offenders(
        spec_without_idle(spec_stepped_all(spec_settled(strategies, world), world)),
    );
}

/// The intents after each of the first `upto` of `strategies` has emptied the
/// queues of its robots, in order.
pub open spec fn spec_cleared_all(
    actions: Seq<(u8, Action)>,
    strategies: Seq<StrategyView>,
    upto: int,
) -> Seq<(u8, Action)>
    decreases upto,
{
    if upto <= 0 {
        actions
    } else {
        spec_cleared(
            spec_cleared_all(actions, strategies, upto - 1),
            strategies[upto - 1].ids,
            strategies[upto - 1].ids.len() as int,
        )
    }
}

/// There is no intent for any robot that one of `strategies` owns.
pub open spec fn none_for_owned(actions: Seq<(u8, Action)>, strategies: Seq<StrategyView>) -> bool {
    forall|i: int, k: int, j: int|
        0 <= i < strategies.len() && 0 <= k < strategies[i].ids.len() && 0 <= j < actions.len()
            ==> (#[trigger] actions[j]).0 != #[trigger] strategies[i].ids[k]
}

/// Without the ball every strategy skips: the steps of the strategies do
/// nothing but empty the queues of their robots.
pub proof fn lemma_skip_all(
    strategies: Seq<StrategyView>,
    world: World,
    actions: Seq<(u8, Action)>,
    upto: int,
)
    requires
        world.ball is None,
        0 <= upto <= strategies.len(),
    ensures
        spec_actions_after(strategies, world, actions, upto) == spec_cleared_all(
            actions,
            strategies,
            upto,
        ),
    decreases upto,
{
    if upto > 0 {
        lemma_skip_all(strategies, world, actions, upto - 1);
    }
}

/// What is left once the strategies have emptied the queues of their robots
/// was there before, and belongs to none of these robots.
pub proof fn lemma_cleared_all(
    actions: Seq<(u8, Action)>,
    strategies: Seq<StrategyView>,
    upto: int,
)
    requires
        0 <= upto <= strategies.len(),
    ensures
        forall|j: int|
            0 <= j < spec_cleared_all(actions, strategies, upto).len() ==> actions.contains(
                #[trigger] spec_cleared_all(actions, strategies, upto)[j],
            ),
        none_for_owned(spec_cleared_all(actions, strategies, upto), strategies.take(upto)),
    decreases upto,
{
    let out = spec_cleared_all(actions, strategies, upto);
    if upto > 0 {
        lemma_cleared_all(actions, strategies, upto - 1);
        let before = spec_cleared_all(actions, strategies, upto - 1);
        let ids = strategies[upto - 1].ids;
        lemma_cleared(before, ids, ids.len() as int);
        assert forall|j: int| 0 <= j < out.len() implies actions.contains(#[trigger] out[j]) by {
            assert(before.contains(out[j]));
            let m = choose|m: int| 0 <= m < before.len() && before[m] == out[j];
            assert(actions.contains(before[m]));
        }
        assert forall|i: int, k: int, j: int|
            0 <= i < strategies.take(upto).len() && 0 <= k < strategies.take(upto)[i].ids.len()
                && 0 <= j < out.len() implies (#[trigger] out[j]).0
            != #[trigger] strategies.take(upto)[i].ids[k] by {
            assert(strategies.take(upto)[i] == strategies[i]);
            if i < upto - 1 {
                assert(before.contains(out[j]));
                let m = choose|m: int| 0 <= m < before.len() && before[m] == out[j];
                assert(strategies.take(upto - 1)[i] == strategies[i]);
                assert(before[m].0 != strategies.take(upto - 1)[i].ids[k]);
            } else {
                assert(out[j].0 != ids[k]);
            }
        }
    }
}

/// A tick without the ball. The robots are not given new strategies; every
/// strategy skips, so that no intent is pushed and nothing is left in the
/// queue of any robot that a strategy owns.
pub proof fn lemma_tick_without_ball(
    strategies: Seq<StrategyView>,
    world: World,
    actions: Seq<(u8, Action)>,
)
    requires
        world.ball is None,
    ensures
        spec_assigned(strategies, world) == strategies,
        spec_tick_actions(strategies, world, actions) == spec_cleared_all(
            actions,
            spec_settled(strategies, world),
            spec_settled(strategies, world).len() as int,
        ),
        forall|j: int|
            0 <= j < spec_tick_actions(strategies, world, actions).len() ==> actions.contains(
                #[trigger] spec_tick_actions(strategies, world, actions)[j],
            ),
        none_for_owned(
            spec_tick_actions(strategies, world, actions),
            spec_settled(strategies, world),
        ),
        none_for_owned(spec_tick_actions(strategies, world, actions), spec_tick(strategies, world)),
{
    let settled = spec_settled(strategies, world);
    let out = spec_tick_actions(strategies, world, actions);
    lemma_skip_all(settled, world, actions, settled.len() as int);
    lemma_cleared_all(actions, settled, settled.len() as int);
    assert(settled.take(settled.len() as int) =~= settled);
    let stepped = spec_stepped_all(settled, world);
    let busy = spec_without_idle(stepped);
    let after = spec_tick(strategies, world);
    lemma_kept(stepped, not_idle());
    lemma_offenders_subset(busy);
    assert forall|i: int, k: int, j: int|
        0 <= i < after.len() && 0 <= k < after[i].ids.len() && 0 <= j < out.len() implies (
    #[trigger] out[j]).0 != #[trigger] after[i].ids[k] by {
        let b = choose|b: int| 0 <= b < busy.len() && busy[b] == after[i];
        let m = choose|m: int| 0 <= m < stepped.len() && stepped[m] == busy[b];
        assert(stepped[m].ids == settled[m].ids);
        assert(out[j].0 != settled[m].ids[k]);
    }
}

/// The robots that a tick may bring under a strategy: the goalkeeper, the
/// allies on the field, and the robots that a message of the tick asks to
/// move.
pub open spec fn spec_newcomers(strategies: Seq<StrategyView>, world: World) -> Set<u8> {
    Set::new(
        |id: u8|
            id == KEEPER_ID || world.allies_bot.spec_get(id) is Some || exists|k: int|
                0 <= k < spec_told(strategies, world).len() && spec_moved_robot(
                    #[trigger] spec_told(strategies, world)[k],
                ) == Some(id),
    )
}

/// Every robot that a strategy owns after a tick was owned by a strategy
/// before it, or is the goalkeeper, an ally on the field, or a robot that a
/// message of the tick asks to move.
pub proof fn lemma_tick_owners(strategies: Seq<StrategyView>, world: World)
    ensures
        owners_within(strategies, spec_tick(strategies, world), spec_newcomers(strategies, world)),
{
    let new = spec_newcomers(strategies, world);
    let assigned = spec_assigned(strategies, world);
    match world.ball {
        Some(ball) => {
            lemma_attribute_strategies(strategies, world, ball);
        },
        None => {
            lemma_drawn_same(strategies, world);
        },
    }
    lemma_drawn_owners(strategies, assigned, world, new);
    let told = spec_told(strategies, world);
    assert forall|k: int|
        0 <= k < told.len() && spec_moved_robot(#[trigger] told[k]) is Some implies new.contains(
        spec_moved_robot(told[k]).unwrap(),
    ) by {}
    lemma_process_messages_owners(assigned, told, told.len() as int, new);
    let settled = spec_settled(strategies, world);
    lemma_owners_chain(strategies, assigned, settled, new);
    let stepped = spec_stepped_all(settled, world);
    assert forall|k: int, i: int| 0 <= k < stepped.len() && 0 <= i < stepped[k].ids.len() implies new.contains(
        #[trigger] stepped[k].ids[i],
    ) || owned(settled, stepped[k].ids[i]) by {
        assert(stepped[k].ids == settled[k].ids);
        assert(settled[k].ids.contains(settled[k].ids[i]));
    }
    lemma_owners_chain(strategies, settled, stepped, new);
    let busy = spec_without_idle(stepped);
    lemma_kept(stepped, not_idle());
    lemma_chosen_owners(stepped, busy, new);
    lemma_owners_chain(strategies, stepped, busy, new);
    lemma_offenders_subset(busy);
    lemma_chosen_owners(busy, spec_without_offenders(busy), new);
    lemma_owners_chain(strategies, busy, spec_without_offenders(busy), new);
}

/// Whether no robot occurs twice in `ids`.
pub fn all_distinct(ids: &Vec<u8>) -> (r: bool)
    ensures
        r == distinct(ids@),
{
    let mut j: usize = 0;
    while j < ids.len()
        invariant
            0 <= j <= ids.len(),
            forall|a: int, b: int| 0 <= a < b < j ==> ids@[a] != ids@[b],
        decreases ids.len() - j,
    {
        let mut i: usize = 0;
        while i < j
            invariant
                0 <= i <= j < ids.len(),
                forall|a: int| 0 <= a < i ==> ids@[a] != ids@[j as int],
            decreases j - i,
        {
            if ids[i] == ids[j] {
                return false;
            }
            i += 1;
        }
        j += 1;
    }
    true
}

impl BigBro {
    /// What the strategies have to tell, in the order of the strategies.
    pub fn collect_messages(&self) -> (r: Vec<MessageData>)
        ensures
            r@ == spec_all_messages(self@, self@.len() as int),
    {
        let mut out: Vec<MessageData> = Vec::new();
        let mut i: usize = 0;
        while i < self.strategies.len()
            invariant
                0 <= i <= self.strategies.len(),
                out@ == spec_all_messages(self@, i as int),
            decreases self.strategies.len() - i,
        {
            let told = self.strategies[i].get_messages();
            assert(told@ == self@[i as int].messages);
            let ghost base = out@;
            let mut j: usize = 0;
            while j < told.len()
                invariant
                    0 <= j <= told.len(),
                    out@ == base + told@.take(j as int),
                decreases told.len() - j,
            {
                out.push(told[j]);
                assert(told@.take(j as int + 1) =~= told@.take(j as int).push(told@[j as int]));
                j += 1;
            }
            assert(told@.take(told.len() as int) =~= told@);
            i += 1;
        }
        out
    }

    /// Sends away every strategy that owns no robot.
    pub fn remove_idle(&mut self)
        ensures
            final(self)@ == spec_without_idle(old(self)@),
    {
        let mut kept: Vec<Strategy> = Vec::new();
        let ghost all = self@;
        let n = self.strategies.len();
        let mut k: usize = 0;
        while k < n
            invariant
                0 <= k <= n,
                self.strategies@.len() == n - k,
                all.len() == n,
                forall|j: int| 0 <= j < n - k ==> (#[trigger] self.strategies@[j])@ == all[k + j],
                Seq::new(kept@.len(), |i: int| kept@[i]@) == spec_kept(
                    all.take(k as int),
                    not_idle(),
                ),
            decreases n - k,
        {
            let first = self.strategies.remove(0);
            proof {
                assert(all.take(k as int + 1).drop_last() =~= all.take(k as int));
                assert(first@ == all[k as int]);
            }
            let ghost before = Seq::new(kept@.len(), |i: int| kept@[i]@);
            if first.get_ids().len() > 0 {
                kept.push(first);
                assert(Seq::new(kept@.len(), |i: int| kept@[i]@) =~= before.push(first@));
            }
            k += 1;
        }
        assert(all.take(n as int) =~= all);
        self.strategies = kept;
    }

    /// Whether `strategy` may stay behind the strategies of the manager.
    fn admits(&self, strategy: &Strategy) -> (r: bool)
        ensures
            r == may_stay(self@, strategy@),
    {
        let ids = strategy.get_ids();
        if ids.len() == 0 || !all_distinct(&ids) {
            return false;
        }
        let mut k: usize = 0;
        while k < ids.len()
            invariant
                0 <= k <= ids.len(),
                ids@ == strategy@.ids,
                forall|j: int| 0 <= j < k ==> spec_holder(self@, #[trigger] ids@[j]) == self@.len(),
            decreases ids.len() - k,
        {
            if self.holder(ids[k]).is_some() {
                return false;
            }
            k += 1;
        }
        true
    }

    /// Sends away every offender against the rule of the manager: a strategy
    /// that owns no robot, that names a robot twice, or that names a robot of
    /// a strategy before it that stays. Afterwards no robot occurs twice; a
    /// manager under its rule loses nothing.
    pub fn drop_offenders(&mut self)
        ensures
            final(self)@ == spec_without_offenders(old(self)@),
            no_robot_twice(final(self)@),
            old(self).wf() ==> final(self)@ == old(self)@,
    {
        proof {
            lemma_without_offenders(self@);
        }
        let mut kept = BigBro { strategies: Vec::new() };
        let ghost all = self@;
        let n = self.strategies.len();
        assert(kept@ =~= spec_without_offenders(all.take(0)));
        let mut k: usize = 0;
        while k < n
            invariant
                0 <= k <= n,
                self.strategies@.len() == n - k,
                all.len() == n,
                forall|j: int| 0 <= j < n - k ==> (#[trigger] self.strategies@[j])@ == all[k + j],
                kept@ == spec_without_offenders(all.take(k as int)),
            decreases n - k,
        {
            let first = self.strategies.remove(0);
            proof {
                assert(all.take(k as int + 1).drop_last() =~= all.take(k as int));
                assert(first@ == all[k as int]);
            }
            let ghost before = kept@;
            if kept.admits(&first) {
                kept.strategies.push(first);
                assert(kept@ =~= before.push(first@));
            }
            k += 1;
        }
        assert(all.take(n as int) =~= all);
        self.strategies = kept.strategies;
    }

    /// One tick of the manager. If the ball is on the field the robots are
    /// given their strategies. Then what the strategies ask for is dealt
    /// with, every strategy makes its step in the order in which the manager
    /// holds them, and the strategies that own no robot and the offenders
    /// against the rule of the manager go.
    ///
    /// Without the ball the robots are not given new strategies and every
    /// strategy skips: nothing is pushed, and nothing is left in the queue of
    /// any robot that a strategy owns.
    ///
    /// After the tick no robot belongs to two strategies or twice to one. The
    /// tick keeps the rule of the manager, and under that rule a goalkeeper
    /// strategy owns the goalkeeper and nothing else after it, if the ball is
    /// on the field or it was so before, unless a message of the tick asks to
    /// move the goalkeeper. Every robot that a strategy owns after the tick
    /// was owned before it, or is the goalkeeper, an ally on the field, or a
    /// robot that a message of the tick asks to move.
    pub fn step(&mut self, world: &World, action_wrapper: &mut ActionWrapper)
        ensures
            final(self)@ == spec_tick(old(self)@, *world),
            final(action_wrapper)@ == spec_tick_actions(old(self)@, *world, old(action_wrapper)@),
            no_robot_twice(final(self)@),
            world.ball is None ==> {
                &&& final(action_wrapper)@ == spec_cleared_all(
                    old(action_wrapper)@,
                    spec_settled(old(self)@, *world),
                    spec_settled(old(self)@, *world).len() as int,
                )
                &&& none_for_owned(final(action_wrapper)@, final(self)@)
                &&& forall|j: int|
                    0 <= j < final(action_wrapper)@.len() ==> old(action_wrapper)@.contains(
                        #[trigger] final(action_wrapper)@[j],
                    )
            },
            old(self).wf() ==> final(self).wf(),
            old(self).wf() && (world.ball is Some || keeper_pinned(old(self)@))
                && keeper_left_alone(old(self)@, *world) ==> keeper_pinned(final(self)@),
            owners_within(old(self)@, final(self)@, spec_newcomers(old(self)@, *world)),
    {
        proof {
            lemma_tick_owners(self@, *world);
            if world.ball is None {
                lemma_tick_without_ball(self@, *world, action_wrapper@);
            }
            if self.wf() {
                lemma_tick_well_formed(self@, *world);
            }
            if self.wf() && (world.ball is Some || keeper_pinned(self@)) && keeper_left_alone(
                self@,
                *world,
            ) {
                lemma_tick_keeper(self@, *world);
            }
        }
        match &world.ball {
            Some(ball) => {
                self.attribute_strategies(world, ball);
            },
            None => {},
        }
        let messages = self.collect_messages();
        self.process_messages(messages);
        let ghost settled = self@;
        let n = self.strategies.len();
        let mut i: usize = 0;
        while i < n
            invariant
                0 <= i <= n,
                self.strategies@.len() == n,
                settled.len() == n,
                forall|j: int| 0 <= j < i ==> (#[trigger] self@[j]) == settled[j].spec_stepped(*world),
                forall|j: int| i <= j < n ==> (#[trigger] self@[j]) == settled[j],
                action_wrapper@ == spec_actions_after(
                    settled,
                    *world,
                    old(action_wrapper)@,
                    i as int,
                ),
            decreases n - i,
        {
            let ghost before = self@;
            let mut strategy = self.strategies.remove(i);
            assert(strategy@ == before[i as int]);
            strategy.step(world, action_wrapper);
            self.strategies.insert(i, strategy);
            proof {
                assert forall|j: int| 0 <= j < n && j != i implies (#[trigger] self@[j])
                    == before[j] by {}
            }
            i += 1;
        }
        assert(self@ =~= spec_stepped_all(settled, *world));
        self.remove_idle();
        self.drop_offenders();
    }
}

} // verus!
