//! The manager: it owns the live strategies and hands the robots round
//! between them, by the state of play and by what the strategies ask for.

use vstd::prelude::*;
use crate::attacker::Attacker;
use crate::defensive::GoalKeeper;
use crate::message::AttackerMessage;
use crate::message::Message;
use crate::message::MessageData;
use crate::partition::keeper_pinned;
use crate::partition::lemma_count_single;
use crate::partition::lemma_detach_keeper;
use crate::partition::lemma_detach_well_formed;
use crate::partition::lemma_first_index;
use crate::partition::lemma_holder;
use crate::partition::lemma_move_to_existing_keeper;
use crate::partition::lemma_move_to_existing_well_formed;
use crate::partition::lemma_move_to_new_keeper;
use crate::partition::lemma_move_to_new_well_formed;
use crate::partition::lemma_occurrences_push;
use crate::partition::lemma_without_receivers;
use crate::partition::spec_detach;
use crate::partition::spec_first_index;
use crate::partition::spec_fresh;
use crate::partition::spec_holder;
use crate::partition::spec_move_to_existing;
use crate::partition::spec_move_to_new;
use crate::partition::spec_occurrences;
use crate::partition::spec_release;
use crate::partition::spec_without;
use crate::partition::spec_without_first;
use crate::partition::spec_without_receivers;
use crate::partition::well_formed;
use crate::receiver::Receiver;
use crate::strategy::Role;
use crate::strategy::Strategy;
use crate::strategy::StrategyKind;
use crate::strategy::StrategyView;
use crate::testing::Aligned;
use crate::testing::GoLeft;
use crate::testing::GoRight;
use crate::utils::contains_id;
use crate::utils::KEEPER_ID;

verus! {

/// The manager of the strategies.
pub struct BigBro {
    pub(crate) strategies: Vec<Strategy>,
}

/// Position of the first of `strategies` with the given name, or their
/// number if none has it.
pub open spec fn spec_first_named(strategies: Seq<StrategyView>, name: Seq<char>) -> int
    decreases strategies.len(),
{
    if strategies.len() == 0 {
        0
    } else if strategies[0].kind.spec_name() == name {
        0
    } else {
        1 + spec_first_named(strategies.skip(1), name)
    }
}

/// Position of the first of `strategies` in the given role, or their number
/// if none is in it.
pub open spec fn spec_first_in_role(strategies: Seq<StrategyView>, role: Role) -> int
    decreases strategies.len(),
{
    if strategies.len() == 0 {
        0
    } else if strategies[0].kind.spec_role() == role {
        0
    } else {
        1 + spec_first_in_role(strategies.skip(1), role)
    }
}

/// `spec_first_named` finds the first strategy with the name, if there is
/// one.
pub proof fn lemma_first_named(strategies: Seq<StrategyView>, name: Seq<char>)
    ensures
        0 <= spec_first_named(strategies, name) <= strategies.len(),
        spec_first_named(strategies, name) < strategies.len() ==> strategies[spec_first_named(
            strategies,
            name,
        )].kind.spec_name() == name,
        forall|k: int|
            0 <= k < spec_first_named(strategies, name) ==> (
            #[trigger] strategies[k]).kind.spec_name() != name,
    decreases strategies.len(),
{
    if strategies.len() > 0 && strategies[0].kind.spec_name() != name {
        let rest = strategies.skip(1);
        lemma_first_named(rest, name);
        let h = spec_first_named(rest, name);
        assert forall|k: int| 0 <= k < 1 + h implies (#[trigger] strategies[k]).kind.spec_name()
            != name by {
            if k > 0 {
                assert(rest[k - 1] == strategies[k]);
            }
        }
        if h < rest.len() {
            assert(rest[h] == strategies[h + 1]);
        }
    }
}

/// `spec_first_in_role` finds the first strategy in the role, if there is
/// one.
pub proof fn lemma_first_in_role(strategies: Seq<StrategyView>, role: Role)
    ensures
        0 <= spec_first_in_role(strategies, role) <= strategies.len(),
        spec_first_in_role(strategies, role) < strategies.len() ==> strategies[spec_first_in_role(
            strategies,
            role,
        )].kind.spec_role() == role,
        forall|k: int|
            0 <= k < spec_first_in_role(strategies, role) ==> (
            #[trigger] strategies[k]).kind.spec_role() != role,
    decreases strategies.len(),
{
    if strategies.len() > 0 && strategies[0].kind.spec_role() != role {
        let rest = strategies.skip(1);
        lemma_first_in_role(rest, role);
        let h = spec_first_in_role(rest, role);
        assert forall|k: int| 0 <= k < 1 + h implies (#[trigger] strategies[k]).kind.spec_role()
            != role by {
            if k > 0 {
                assert(rest[k - 1] == strategies[k]);
            }
        }
        if h < rest.len() {
            assert(rest[h] == strategies[h + 1]);
        }
    }
}

/// The robot that a message asks to move to another strategy, if it asks for
/// that.
pub open spec fn spec_moved_robot(message: MessageData) -> Option<u8> {
    match message.message {
        Message::WantToGoRight => Some(message.id),
        Message::WantToGoLeft => Some(message.id),
        Message::WantToBeAligned => Some(message.id),
        Message::AttackerMessage(AttackerMessage::WantToPassBallTo(target, _)) => Some(target),
        Message::AttackerMessage(AttackerMessage::BallPassed(target)) => Some(target),
        Message::AttackerMessage(AttackerMessage::NoNeedReceiver) => None,
    }
}

/// The strategies after one message has been dealt with.
///
/// A robot that wants to go right or left goes to a new strategy of that
/// name. A robot that wants to be aligned joins the first strategy of the
/// aligned, or founds one. The robot that a pass is meant for becomes a
/// receiver, the robot that a pass was played to becomes an attacker, and
/// where the attacker needs no receiver every receiver is sent away.
pub open spec fn spec_handle_message(strategies: Seq<StrategyView>, message: MessageData) -> Seq<
    StrategyView,
> {
    match message.message {
        Message::WantToGoRight => spec_move_to_new(
            strategies,
            message.id,
            spec_fresh(StrategyKind::GoRight, seq![message.id]),
        ),
        Message::WantToGoLeft => spec_move_to_new(
            strategies,
            message.id,
            spec_fresh(StrategyKind::GoLeft, seq![message.id]),
        ),
        Message::WantToBeAligned => {
            let at = spec_first_in_role(strategies, Role::Aligned);
            if at < strategies.len() {
                spec_move_to_existing(strategies, message.id, at)
            } else {
                spec_move_to_new(
                    strategies,
                    message.id,
                    spec_fresh(StrategyKind::Aligned, seq![message.id]),
                )
            }
        },
        Message::AttackerMessage(AttackerMessage::WantToPassBallTo(target, line)) => spec_move_to_new(
            strategies,
            target,
            spec_fresh(
                StrategyKind::Receiver { passer_id: message.id, passing_trajectory: line },
                seq![target],
            ),
        ),
        Message::AttackerMessage(AttackerMessage::BallPassed(target)) => spec_move_to_new(
            strategies,
            target,
            spec_fresh(StrategyKind::Attacker, seq![target]),
        ),
        Message::AttackerMessage(AttackerMessage::NoNeedReceiver) => spec_without_receivers(
            strategies,
        ),
    }
}

/// The strategies after the first `upto` of `messages` have been dealt with,
/// in order.
pub open spec fn spec_process_messages(
    strategies: Seq<StrategyView>,
    messages: Seq<MessageData>,
    upto: int,
) -> Seq<StrategyView>
    decreases upto,
{
    if upto <= 0 {
        strategies
    } else {
        spec_handle_message(
            spec_process_messages(strategies, messages, upto - 1),
            messages[upto - 1],
        )
    }
}

/// Dealing with a message keeps the rule of the manager; it keeps the
/// goalkeeper strategy unless the message moves the goalkeeper.
pub proof fn lemma_handle_message(strategies: Seq<StrategyView>, message: MessageData)
    ensures
        well_formed(strategies) ==> well_formed(spec_handle_message(strategies, message)),
        keeper_pinned(strategies) && spec_moved_robot(message) != Some(KEEPER_ID) ==> keeper_pinned(
            spec_handle_message(strategies, message),
        ),
{
    match message.message {
        Message::WantToGoRight => {
            let new = spec_fresh(StrategyKind::GoRight, seq![message.id]);
            if well_formed(strategies) {
                lemma_move_to_new_well_formed(strategies, message.id, new);
            }
            if keeper_pinned(strategies) && message.id != KEEPER_ID {
                lemma_move_to_new_keeper(strategies, message.id, new);
            }
        },
        Message::WantToGoLeft => {
            let new = spec_fresh(StrategyKind::GoLeft, seq![message.id]);
            if well_formed(strategies) {
                lemma_move_to_new_well_formed(strategies, message.id, new);
            }
            if keeper_pinned(strategies) && message.id != KEEPER_ID {
                lemma_move_to_new_keeper(strategies, message.id, new);
            }
        },
        Message::WantToBeAligned => {
            let at = spec_first_in_role(strategies, Role::Aligned);
            lemma_first_in_role(strategies, Role::Aligned);
            if at < strategies.len() {
                if well_formed(strategies) {
                    lemma_move_to_existing_well_formed(strategies, message.id, at);
                }
                if keeper_pinned(strategies) && message.id != KEEPER_ID {
                    lemma_move_to_existing_keeper(strategies, message.id, at);
                }
            } else {
                let new = spec_fresh(StrategyKind::Aligned, seq![message.id]);
                if well_formed(strategies) {
                    lemma_move_to_new_well_formed(strategies, message.id, new);
                }
                if keeper_pinned(strategies) && message.id != KEEPER_ID {
                    lemma_move_to_new_keeper(strategies, message.id, new);
                }
            }
        },
        Message::AttackerMessage(AttackerMessage::WantToPassBallTo(target, line)) => {
            let new = spec_fresh(
                StrategyKind::Receiver { passer_id: message.id, passing_trajectory: line },
                seq![target],
            );
            if well_formed(strategies) {
                lemma_move_to_new_well_formed(strategies, target, new);
            }
            if keeper_pinned(strategies) && target != KEEPER_ID {
                lemma_move_to_new_keeper(strategies, target, new);
            }
        },
        Message::AttackerMessage(AttackerMessage::BallPassed(target)) => {
            let new = spec_fresh(StrategyKind::Attacker, seq![target]);
            if well_formed(strategies) {
                lemma_move_to_new_well_formed(strategies, target, new);
            }
            if keeper_pinned(strategies) && target != KEEPER_ID {
                lemma_move_to_new_keeper(strategies, target, new);
            }
        },
        Message::AttackerMessage(AttackerMessage::NoNeedReceiver) => {
            lemma_without_receivers(strategies);
        },
    }
}

/// Dealing with any messages keeps the rule of the manager; it keeps the
/// goalkeeper strategy unless one of the messages moves the goalkeeper.
pub proof fn lemma_process_messages(
    strategies: Seq<StrategyView>,
    messages: Seq<MessageData>,
    upto: int,
)
    requires
        0 <= upto <= messages.len(),
    ensures
        well_formed(strategies) ==> well_formed(
            spec_process_messages(strategies, messages, upto),
        ),
        keeper_pinned(strategies) && (forall|k: int|
            0 <= k < upto ==> spec_moved_robot(#[trigger] messages[k]) != Some(KEEPER_ID))
            ==> keeper_pinned(spec_process_messages(strategies, messages, upto)),
    decreases upto,
{
    if upto > 0 {
        lemma_process_messages(strategies, messages, upto - 1);
        lemma_handle_message(
            spec_process_messages(strategies, messages, upto - 1),
            messages[upto - 1],
        );
    }
}

/// Whether two strings are the same.
pub fn same_text(a: &str, b: &str) -> (r: bool)
    ensures
        r == (a@ == b@),
{
    a.to_owned() == b.to_owned()
}

/// Position of the first occurrence of `id` in `ids`.
pub fn first_index(ids: &Vec<u8>, id: u8) -> (r: usize)
    ensures
        r == spec_first_index(ids@, id),
        r <= ids@.len(),
{
    proof {
        lemma_first_index(ids@, id);
    }
    let mut i: usize = 0;
    while i < ids.len()
        invariant
            0 <= i <= ids.len(),
            forall|k: int| 0 <= k < i ==> ids@[k] != id,
            0 <= spec_first_index(ids@, id) <= ids@.len(),
            spec_first_index(ids@, id) < ids@.len() ==> ids@[spec_first_index(ids@, id)] == id,
            forall|k: int| 0 <= k < spec_first_index(ids@, id) ==> ids@[k] != id,
        decreases ids.len() - i,
    {
        if ids[i] == id {
            return i;
        }
        i += 1;
    }
    i
}

/// `ids` without any occurrence of `id`.
pub fn without(ids: &Vec<u8>, id: u8) -> (r: Vec<u8>)
    ensures
        r@ == spec_without(ids@, id),
{
    let mut out: Vec<u8> = Vec::new();
    let mut i: usize = 0;
    while i < ids.len()
        invariant
            0 <= i <= ids.len(),
            out@ == spec_without(ids@.take(i as int), id),
        decreases ids.len() - i,
    {
        proof {
            assert(ids@.take(i as int + 1).drop_last() =~= ids@.take(i as int));
        }
        if ids[i] != id {
            out.push(ids[i]);
        }
        i += 1;
    }
    assert(ids@.take(ids.len() as int) =~= ids@);
    out
}

impl BigBro {
    /// The strategies that the manager holds, in the order in which they came.
    pub open(crate) spec fn view(&self) -> Seq<StrategyView> {
        Seq::new(self.strategies@.len(), |i: int| self.strategies@[i]@)
    }

    /// The rule of the manager holds: no robot belongs to two strategies or
    /// twice to one, and every strategy owns a robot.
    pub open spec fn wf(&self) -> bool {
        well_formed(self@)
    }

    /// A manager with the goalkeeper strategy and nothing else.
    pub fn new() -> (r: BigBro)
        ensures
            r@ == seq![spec_fresh(StrategyKind::GoalKeeper, seq![KEEPER_ID])],
            r.wf(),
            keeper_pinned(r@),
    {
        let mut strategies: Vec<Strategy> = Vec::new();
        strategies.push(Strategy::GoalKeeper(GoalKeeper::new(KEEPER_ID)));
        let r = BigBro { strategies };
        proof {
            let only = spec_fresh(StrategyKind::GoalKeeper, seq![KEEPER_ID]);
            assert(r@ =~= seq![only]);
            assert(r@[0] == only);
            assert forall|id: u8| spec_occurrences(r@, id) <= 1 by {
                assert(r@ =~= Seq::<StrategyView>::empty().push(only));
                lemma_occurrences_push(Seq::<StrategyView>::empty(), only, id);
                lemma_count_single(KEEPER_ID, id);
            }
        }
        r
    }

    /// Number of strategies.
    pub fn len(&self) -> (n: usize)
        ensures
            n == self@.len(),
    {
        self.strategies.len()
    }

    /// The strategy at `index`.
    pub fn get(&self, index: usize) -> (r: &Strategy)
        requires
            index < self@.len(),
        ensures
            r@ == self@[index as int],
    {
        &self.strategies[index]
    }

    /// Position of the strategy that holds the robot `bot_id`.
    pub fn holder(&self, bot_id: u8) -> (r: Option<usize>)
        ensures
            match r {
                Some(i) => i == spec_holder(self@, bot_id) && i < self@.len(),
                None => spec_holder(self@, bot_id) == self@.len(),
            },
    {
        proof {
            lemma_holder(self@, bot_id);
        }
        let mut i: usize = 0;
        while i < self.strategies.len()
            invariant
                0 <= i <= self.strategies.len(),
                forall|k: int| 0 <= k < i ==> !(#[trigger] self@[k]).ids.contains(bot_id),
                0 <= spec_holder(self@, bot_id) <= self@.len(),
                spec_holder(self@, bot_id) < self@.len() ==> self@[spec_holder(
                    self@,
                    bot_id,
                )].ids.contains(bot_id),
                forall|k: int|
                    0 <= k < spec_holder(self@, bot_id) ==> !(#[trigger] self@[k]).ids.contains(
                        bot_id,
                    ),
            decreases self.strategies.len() - i,
        {
            let ids = self.strategies[i].get_ids();
            assert(ids@ == self@[i as int].ids);
            if contains_id(&ids, bot_id) {
                return Some(i);
            }
            i += 1;
        }
        None
    }

    /// Get the index of a strategy with a given name: the first one that
    /// bears it.
    pub fn get_index_strategy_with_name(&self, name: &str) -> (r: Option<usize>)
        ensures
            match r {
                Some(i) => i == spec_first_named(self@, name@) && i < self@.len(),
                None => spec_first_named(self@, name@) == self@.len(),
            },
    {
        proof {
            lemma_first_named(self@, name@);
        }
        let mut i: usize = 0;
        while i < self.strategies.len()
            invariant
                0 <= i <= self.strategies.len(),
                forall|k: int| 0 <= k < i ==> (#[trigger] self@[k]).kind.spec_name() != name@,
                0 <= spec_first_named(self@, name@) <= self@.len(),
                spec_first_named(self@, name@) < self@.len() ==> self@[spec_first_named(
                    self@,
                    name@,
                )].kind.spec_name() == name@,
                forall|k: int|
                    0 <= k < spec_first_named(self@, name@) ==> (
                    #[trigger] self@[k]).kind.spec_name() != name@,
            decreases self.strategies.len() - i,
        {
            let this = self.strategies[i].name();
            assert(this@ == self@[i as int].kind.spec_name());
            if same_text(this, name) {
                return Some(i);
            }
            i += 1;
        }
        None
    }

    /// Position of the first strategy in the given role.
    pub fn first_in_role(&self, role: Role) -> (r: Option<usize>)
        ensures
            match r {
                Some(i) => i == spec_first_in_role(self@, role) && i < self@.len(),
                None => spec_first_in_role(self@, role) == self@.len(),
            },
    {
        proof {
            lemma_first_in_role(self@, role);
        }
        let mut i: usize = 0;
        while i < self.strategies.len()
            invariant
                0 <= i <= self.strategies.len(),
                forall|k: int| 0 <= k < i ==> (#[trigger] self@[k]).kind.spec_role() != role,
                0 <= spec_first_in_role(self@, role) <= self@.len(),
                spec_first_in_role(self@, role) < self@.len() ==> self@[spec_first_in_role(
                    self@,
                    role,
                )].kind.spec_role() == role,
                forall|k: int|
                    0 <= k < spec_first_in_role(self@, role) ==> (
                    #[trigger] self@[k]).kind.spec_role() != role,
            decreases self.strategies.len() - i,
        {
            let this = self.strategies[i].kind().role();
            assert(this == self@[i as int].kind.spec_role());
            if this == role {
                return Some(i);
            }
            i += 1;
        }
        None
    }

    /// Get the robot current strategy: the first strategy that holds the
    /// robot `bot_id`.
    pub fn get_bot_current_strategy(&self, bot_id: u8) -> (r: Option<&Strategy>)
        ensures
            match r {
                Some(strategy) => spec_holder(self@, bot_id) < self@.len() && strategy@
                    == self@[spec_holder(self@, bot_id)],
                None => spec_holder(self@, bot_id) == self@.len(),
            },
    {
        match self.holder(bot_id) {
            Some(i) => Some(&self.strategies[i]),
            None => None,
        }
    }

    /// Puts `ids` to the strategy at `at`.
    fn put_ids_at(&mut self, at: usize, ids: Vec<u8>)
        requires
            at < old(self)@.len(),
        ensures
            final(self)@ == old(self)@.update(at as int, old(self)@[at as int].spec_put_ids(ids@)),
    {
        let mut held = self.strategies.remove(at);
        held.put_ids(ids);
        self.strategies.insert(at, held);
        assert(self@ =~= old(self)@.update(at as int, old(self)@[at as int].spec_put_ids(ids@)));
    }

    /// Takes the robot `bot_id` out of the strategy at `at`, which goes if
    /// `held` is one.
    fn release(&mut self, at: usize, held: usize, bot_id: u8)
        requires
            at < old(self)@.len(),
        ensures
            final(self)@ == spec_release(old(self)@, at as int, held as int, bot_id),
    {
        if held == 1 {
            self.strategies.remove(at);
            assert(self@ =~= old(self)@.remove(at as int));
        } else {
            let ids = self.strategies[at].get_ids();
            self.put_ids_at(at, without(&ids, bot_id));
        }
    }

    /// Takes the robot `bot_id` out of the strategy that holds it, if one
    /// does; a strategy that held nothing else goes.
    pub fn detach(&mut self, bot_id: u8)
        ensures
            final(self)@ == spec_detach(old(self)@, bot_id),
            old(self).wf() ==> final(self).wf(),
            keeper_pinned(old(self)@) && bot_id != KEEPER_ID ==> keeper_pinned(final(self)@),
    {
        proof {
            if self.wf() {
                lemma_detach_well_formed(self@, bot_id);
            }
            if keeper_pinned(self@) && bot_id != KEEPER_ID {
                lemma_detach_keeper(self@, bot_id);
            }
        }
        match self.holder(bot_id) {
            Some(h) => {
                let held = self.strategies[h].get_ids().len();
                self.release(h, held, bot_id);
            },
            None => {},
        }
    }

    /// Moves a bot from its current strategy to an existing strategy: the
    /// strategy at `strategy_index` is put its list with the robot added, and
    /// the strategy that held the robot before loses it, or goes if it held
    /// nothing else.
    ///
    /// The move keeps the rule of the manager, and it keeps the goalkeeper
    /// strategy unless the robot is the goalkeeper.
    pub fn move_bot_to_existing_strategy(&mut self, bot_id: u8, strategy_index: usize)
        requires
            strategy_index < old(self)@.len(),
        ensures
            final(self)@ == spec_move_to_existing(old(self)@, bot_id, strategy_index as int),
            old(self).wf() ==> final(self).wf(),
            keeper_pinned(old(self)@) && bot_id != KEEPER_ID ==> keeper_pinned(final(self)@),
    {
        proof {
            if self.wf() {
                lemma_move_to_existing_well_formed(self@, bot_id, strategy_index as int);
            }
            if keeper_pinned(self@) && bot_id != KEEPER_ID {
                lemma_move_to_existing_keeper(self@, bot_id, strategy_index as int);
            }
        }
        let previous = self.holder(bot_id);
        let held = match previous {
            Some(h) => self.strategies[h].get_ids().len(),
            None => 0,
        };
        let mut ids = self.strategies[strategy_index].get_ids();
        ids.push(bot_id);
        self.put_ids_at(strategy_index, ids);
        match previous {
            Some(h) => {
                self.release(h, held, bot_id);
            },
            None => {},
        }
    }

    /// Moves a bot from its current strategy to a new one: where the strategy
    /// that held the robot held nothing else, the new one takes its place;
    /// else the robot leaves its old strategy and the new one comes last.
    ///
    /// The move keeps the rule of the manager if the new strategy owns the
    /// robot and nothing else, and it keeps the goalkeeper strategy unless the
    /// robot is the goalkeeper.
    pub fn move_bot_to_new_strategy(&mut self, bot_id: u8, strategy: Strategy)
        ensures
            final(self)@ == spec_move_to_new(old(self)@, bot_id, strategy@),
            old(self).wf() && strategy@.ids == seq![bot_id] ==> final(self).wf(),
            keeper_pinned(old(self)@) && bot_id != KEEPER_ID ==> keeper_pinned(final(self)@),
    {
        proof {
            if self.wf() && strategy@.ids == seq![bot_id] {
                lemma_move_to_new_well_formed(self@, bot_id, strategy@);
            }
            if keeper_pinned(self@) && bot_id != KEEPER_ID {
                lemma_move_to_new_keeper(self@, bot_id, strategy@);
            }
        }
        match self.holder(bot_id) {
            Some(h) => {
                let mut ids = self.strategies[h].get_ids();
                let at = first_index(&ids, bot_id);
                if at < ids.len() {
                    ids.remove(at);
                }
                assert(ids@ == spec_without_first(old(self)@[h as int].ids, bot_id));
                if ids.len() == 0 {
                    self.strategies.set(h, strategy);
                    assert(self@ =~= old(self)@.update(h as int, strategy@));
                } else {
                    self.put_ids_at(h, ids);
                    self.strategies.push(strategy);
                    assert(self@ =~= old(self)@.update(
                        h as int,
                        old(self)@[h as int].spec_put_ids(ids@),
                    ).push(strategy@));
                }
            },
            None => {
                self.strategies.push(strategy);
                assert(self@ =~= old(self)@.push(strategy@));
            },
        }
    }

    /// Sends every receiver away.
    fn remove_receivers(&mut self)
        ensures
            final(self)@ == spec_without_receivers(old(self)@),
    {
        let mut kept: Vec<Strategy> = Vec::new();
        let ghost all = self@;
        let ghost mut done: int = 0;
        let n = self.strategies.len();
        let mut k: usize = 0;
        while k < n
            invariant
                0 <= k <= n,
                self.strategies@.len() == n - k,
                all.len() == n,
                forall|j: int| 0 <= j < n - k ==> (#[trigger] self.strategies@[j])@ == all[k + j],
                Seq::new(kept@.len(), |i: int| kept@[i]@) == spec_without_receivers(
                    all.take(k as int),
                ),
                spec_without_receivers(all.take(k as int)) == crate::partition::spec_kept(
                    all.take(k as int),
                    crate::partition::not_receiver(),
                ),
            decreases n - k,
        {
            let first = self.strategies.remove(0);
            proof {
                assert(all.take(k as int + 1).drop_last() =~= all.take(k as int));
                assert(first@ == all[k as int]);
            }
            let ghost before = Seq::new(kept@.len(), |i: int| kept@[i]@);
            if first.kind().role() != Role::Receiver {
                kept.push(first);
                assert(Seq::new(kept@.len(), |i: int| kept@[i]@) =~= before.push(first@));
            }
            k += 1;
        }
        assert(all.take(n as int) =~= all);
        self.strategies = kept;
    }

    /// Deals with one message.
    pub fn handle_message(&mut self, message: &MessageData)
        ensures
            final(self)@ == spec_handle_message(old(self)@, *message),
            old(self).wf() ==> final(self).wf(),
            keeper_pinned(old(self)@) && spec_moved_robot(*message) != Some(KEEPER_ID)
                ==> keeper_pinned(final(self)@),
    {
        proof {
            lemma_handle_message(self@, *message);
        }
        match message.message {
            Message::WantToGoRight => {
                let strategy = Strategy::GoRight(GoRight::new(message.id));
                assert(strategy@ == spec_fresh(StrategyKind::GoRight, seq![message.id]));
                self.move_bot_to_new_strategy(message.id, strategy);
            },
            Message::WantToGoLeft => {
                let strategy = Strategy::GoLeft(GoLeft::new(message.id));
                assert(strategy@ == spec_fresh(StrategyKind::GoLeft, seq![message.id]));
                self.move_bot_to_new_strategy(message.id, strategy);
            },
            Message::WantToBeAligned => {
                match self.first_in_role(Role::Aligned) {
                    Some(at) => {
                        self.move_bot_to_existing_strategy(message.id, at);
                    },
                    None => {
                        let mut ids: Vec<u8> = Vec::new();
                        ids.push(message.id);
                        assert(ids@ =~= seq![message.id]);
                        let strategy = Strategy::Aligned(Aligned::new(ids));
                        assert(strategy@ == spec_fresh(StrategyKind::Aligned, seq![message.id]));
                        self.move_bot_to_new_strategy(message.id, strategy);
                    },
                }
            },
            Message::AttackerMessage(AttackerMessage::WantToPassBallTo(target, line)) => {
                let strategy = Strategy::Receiver(Receiver::new(target, message.id, line));
                assert(strategy@ == spec_fresh(
                    StrategyKind::Receiver { passer_id: message.id, passing_trajectory: line },
                    seq![target],
                ));
                self.move_bot_to_new_strategy(target, strategy);
            },
            Message::AttackerMessage(AttackerMessage::BallPassed(target)) => {
                let strategy = Strategy::Attacker(Attacker::new(target));
                assert(strategy@ == spec_fresh(StrategyKind::Attacker, seq![target]));
                self.move_bot_to_new_strategy(target, strategy);
            },
            Message::AttackerMessage(AttackerMessage::NoNeedReceiver) => {
                self.remove_receivers();
            },
        }
    }

    /// Processes the messages received from the strategies and updates the
    /// strategies accordingly, message by message in order.
    ///
    /// This keeps the rule of the manager, and it keeps the goalkeeper
    /// strategy unless a message moves the goalkeeper.
    pub fn process_messages(&mut self, messages: Vec<MessageData>)
        ensures
            final(self)@ == spec_process_messages(old(self)@, messages@, messages@.len() as int),
            old(self).wf() ==> final(self).wf(),
            keeper_pinned(old(self)@) && (forall|k: int|
                0 <= k < messages@.len() ==> spec_moved_robot(#[trigger] messages@[k]) != Some(
                    KEEPER_ID,
                )) ==> keeper_pinned(final(self)@),
    {
        proof {
            lemma_process_messages(self@, messages@, messages@.len() as int);
        }
        let mut i: usize = 0;
        while i < messages.len()
            invariant
                0 <= i <= messages.len(),
                self@ == spec_process_messages(old(self)@, messages@, i as int),
            decreases messages.len() - i,
        {
            self.handle_message(&messages[i]);
            i += 1;
        }
    }
}

} // verus!
