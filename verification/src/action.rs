//! The intents that strategies hand to the executor.

use vstd::prelude::*;
use crate::math::Delta;
use crate::math::Vec2;
use crate::output::Command;
use crate::output::Kick;

verus! {

/// Go to a point and face a direction.
#[derive(Clone, Copy, Debug, PartialEq, Eq, Structural)]
pub struct MoveTo {
    pub target: Vec2,
    /// The direction to face once there; the direction with no length stands
    /// for the angle zero.
    pub orientation: Delta,
    pub dribbler: u32,
    pub charge: bool,
    pub kick: Option<Kick>,
    /// Whether the way there goes round what stands on it.
    pub avoidance: bool,
}

impl MoveTo {
    /// A move with the given settings.
    pub fn new(
        target: Vec2,
        orientation: Delta,
        dribbler: u32,
        charge: bool,
        kick: Option<Kick>,
        avoidance: bool,
    ) -> (r: MoveTo)
        ensures
            r == (MoveTo { target, orientation, dribbler, charge, kick, avoidance }),
    {
        MoveTo { target, orientation, dribbler, charge, kick, avoidance }
    }
}

/// One intent for one robot.
#[derive(Clone, Copy, Debug, PartialEq, Eq, Structural)]
pub enum Action {
    MoveTo(MoveTo),
    /// A command to send as it is.
    RawOrder(Command),
}

/// The intents of one tick: for each robot a queue, in the order of pushing.
pub struct ActionWrapper {
    pub(crate) actions: Vec<(u8, Action)>,
}

/// Whether an entry of the wrapper belongs to the robot `id`.
pub open spec fn of_robot(id: u8) -> spec_fn((u8, Action)) -> bool {
    |e: (u8, Action)| e.0 == id
}

/// Whether an entry of the wrapper belongs to another robot than `id`.
pub open spec fn of_other_robot(id: u8) -> spec_fn((u8, Action)) -> bool {
    |e: (u8, Action)| e.0 != id
}

impl ActionWrapper {
    /// Every intent with its robot, in the order of pushing.
    pub open(crate) spec fn view(&self) -> Seq<(u8, Action)> {
        self.actions@
    }

    /// The queue of the robot `id`.
    pub open spec fn spec_queue(&self, id: u8) -> Seq<(u8, Action)> {
        self@.filter(of_robot(id))
    }

    /// No intent for any robot.
    pub fn new() -> (r: ActionWrapper)
        ensures
            r@ == Seq::<(u8, Action)>::empty(),
    {
        ActionWrapper { actions: Vec::new() }
    }

    /// Puts `action` at the end of the queue of the robot `id`.
    pub fn push(&mut self, id: u8, action: Action)
        ensures
            final(self)@ == old(self)@.push((id, action)),
    {
        self.actions.push((id, action));
    }

    /// Empties the queue of the robot `id`.
    pub fn clear(&mut self, id: u8)
        ensures
            final(self)@ == old(self)@.filter(of_other_robot(id)),
    {
        let mut out: Vec<(u8, Action)> = Vec::new();
        let mut i: usize = 0;
        let ghost keep = of_other_robot(id);
        while i < self.actions.len()
            invariant
                0 <= i <= self.actions.len(),
                keep == of_other_robot(id),
                out@ == self.actions@.take(i as int).filter(keep),
            decreases self.actions.len() - i,
        {
            proof {
                assert(self.actions@.take(i as int + 1).drop_last() =~= self.actions@.take(
                    i as int,
                ));
                reveal(Seq::filter);
            }
            if self.actions[i].0 != id {
                out.push(self.actions[i]);
            }
            i += 1;
        }
        assert(self.actions@.take(self.actions.len() as int) =~= self.actions@);
        self.actions = out;
    }

    /// The intents once the queue of the robot `id` holds `intent` and
    /// nothing else.
    pub open spec fn spec_replaced(actions: Seq<(u8, Action)>, id: u8, intent: Option<MoveTo>) -> Seq<
        (u8, Action),
    > {
        match intent {
            Some(m) => actions.filter(of_other_robot(id)).push((id, Action::MoveTo(m))),
            None => actions.filter(of_other_robot(id)),
        }
    }

    /// Empties the queue of the robot `id` and puts `intent` in it, if there
    /// is one.
    pub fn replace(&mut self, id: u8, intent: Option<MoveTo>)
        ensures
            final(self)@ == Self::spec_replaced(old(self)@, id, intent),
    {
        self.clear(id);
        match intent {
            Some(m) => {
                self.push(id, Action::MoveTo(m));
            },
            None => {},
        }
    }

    /// Empties every queue.
    pub fn clear_all(&mut self)
        ensures
            final(self)@ == Seq::<(u8, Action)>::empty(),
    {
        self.actions = Vec::new();
    }

    /// Number of intents in all the queues.
    pub fn len(&self) -> (n: usize)
        ensures
            n == self@.len(),
    {
        self.actions.len()
    }

    /// The first intent in the queue of the robot `id`.
    pub open spec fn spec_front(&self, id: u8) -> Option<Action> {
        if self.spec_queue(id).len() > 0 {
            Some(self.spec_queue(id)[0].1)
        } else {
            None
        }
    }

    /// The first intent in the queue of the robot `id`.
    pub fn front(&self, id: u8) -> (r: Option<Action>)
        ensures
            r == self.spec_front(id),
    {
        let mut i: usize = 0;
        let ghost mine = of_robot(id);
        while i < self.actions.len()
            invariant
                0 <= i <= self.actions.len(),
                mine == of_robot(id),
                self.actions@.take(i as int).filter(mine).len() == 0,
            decreases self.actions.len() - i,
        {
            proof {
                assert(self.actions@.take(i as int + 1).drop_last() =~= self.actions@.take(
                    i as int,
                ));
                reveal(Seq::filter);
            }
            if self.actions[i].0 == id {
                proof {
                    let head = self.actions@.take(i as int + 1);
                    let tail = self.actions@.skip(i as int + 1);
                    assert(head + tail =~= self.actions@);
                    Seq::filter_distributes_over_add(head, tail, mine);
                    assert(head.filter(mine) =~= seq![self.actions@[i as int]]);
                    assert(self.actions@.filter(mine)[0] == self.actions@[i as int]);
                }
                return Some(self.actions[i].1);
            }
            i += 1;
        }
        assert(self.actions@.take(self.actions.len() as int) =~= self.actions@);
        None
    }
}

/// The intents after the queues of the first `upto` robots of `ids` have
/// been emptied.
pub open spec fn spec_cleared(actions: Seq<(u8, Action)>, ids: Seq<u8>, upto: int) -> Seq<
    (u8, Action),
>
    decreases upto,
{
    if upto <= 0 {
        actions
    } else {
        ActionWrapper::spec_replaced(spec_cleared(actions, ids, upto - 1), ids[upto - 1], None)
    }
}

/// Empties the queues of the robots `ids`.
pub fn clear_queues(action_wrapper: &mut ActionWrapper, ids: &Vec<u8>)
    ensures
        final(action_wrapper)@ == spec_cleared(old(action_wrapper)@, ids@, ids@.len() as int),
{
    let mut k: usize = 0;
    while k < ids.len()
        invariant
            0 <= k <= ids.len(),
            action_wrapper@ == spec_cleared(old(action_wrapper)@, ids@, k as int),
        decreases ids.len() - k,
    {
        action_wrapper.replace(ids[k], None);
        k += 1;
    }
}

/// What is left once queues were emptied was there before, and belongs to
/// none of the robots whose queues were emptied.
pub proof fn lemma_cleared(actions: Seq<(u8, Action)>, ids: Seq<u8>, upto: int)
    requires
        0 <= upto <= ids.len(),
    ensures
        forall|j: int|
            0 <= j < spec_cleared(actions, ids, upto).len() ==> actions.contains(
                #[trigger] spec_cleared(actions, ids, upto)[j],
            ),
        forall|j: int, k: int|
            0 <= j < spec_cleared(actions, ids, upto).len() && 0 <= k < upto ==> (
            #[trigger] spec_cleared(actions, ids, upto)[j]).0 != #[trigger] ids[k],
    decreases upto,
{
    if upto > 0 {
        lemma_cleared(actions, ids, upto - 1);
        let before = spec_cleared(actions, ids, upto - 1);
        let id = ids[upto - 1];
        let out = spec_cleared(actions, ids, upto);
        assert(out == before.filter(of_other_robot(id)));
        assert forall|j: int| 0 <= j < out.len() implies actions.contains(#[trigger] out[j]) && (
        forall|k: int| 0 <= k < upto ==> out[j].0 != #[trigger] ids[k]) by {
            let e = out[j];
            assert(before.filter(of_other_robot(id)).contains(e));
            before.lemma_filter_contains_rev(of_other_robot(id), e);
            before.lemma_filter_pred(of_other_robot(id), j);
            let i = choose|i: int| 0 <= i < before.len() && before[i] == e;
            assert(actions.contains(before[i]));
            assert forall|k: int| 0 <= k < upto implies e.0 != #[trigger] ids[k] by {
                if k < upto - 1 {
                    assert(before[i].0 != ids[k]);
                }
            }
        }
    }
}

} // verus!
