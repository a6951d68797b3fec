//! The live set of item state machines and their merged event stream.
//!
//! Each registered machine has one step in flight, which completes at a
//! known time. [`Multiplexer::next_with`] completes the step that is due
//! first, hands out its event, and starts the machine's following step; a
//! machine that emits `Finished` leaves the set.

use crate::item::{delay_of, delay_with, download_with, step_of, Draw, Progress, State, Step};
use crate::random::draw_for;
use vstd::prelude::*;

verus! {

/// One registered state machine with its step in flight.
pub struct Machine<I> {
    /// The identifier that the machine's events are reported under.
    pub id: I,
    /// The state that the step in flight starts from.
    pub state: State,
    /// The random values of the step in flight.
    pub draw: Draw,
    /// The time in milliseconds at which the step in flight completes.
    pub ready_at: u64,
}

/// The live set of state machines, in the order in which their steps in
/// flight were started.
pub struct Multiplexer<I> {
    machines: Vec<Machine<I>>,
}

impl<I> Machine<I> {
    /// The machine has not finished, and its state and its draw are what
    /// draws in range lead to.
    pub open spec fn live(self) -> bool {
        &&& self.state !is Finished
        &&& self.state.bounded()
        &&& self.draw.in_range()
    }
}

/// Every machine of the sequence is live.
pub open spec fn all_live<I>(machines: Seq<Machine<I>>) -> bool {
    forall|i: int| 0 <= i < machines.len() ==> (#[trigger] machines[i]).live()
}

/// `k` is the position of the machine that is due first; among machines due
/// at the same time, of the one that stands first.
pub open spec fn is_earliest<I>(machines: Seq<Machine<I>>, k: int) -> bool {
    &&& 0 <= k < machines.len()
    &&& forall|i: int|
        0 <= i < machines.len() ==> machines[k].ready_at <= (#[trigger] machines[i]).ready_at
    &&& forall|i: int| 0 <= i < k ==> machines[k].ready_at < (#[trigger] machines[i]).ready_at
}

/// The position of the machine that is due first.
pub open spec fn earliest<I>(machines: Seq<Machine<I>>) -> int {
    choose|k: int| is_earliest(machines, k)
}

/// The time at which a step that starts at `now` and takes `delay_ms`
/// completes; it stops at the largest time that `u64` holds.
pub open spec fn deadline(now: u64, delay_ms: u64) -> u64 {
    if now + delay_ms > u64::MAX {
        u64::MAX
    } else {
        (now + delay_ms) as u64
    }
}

/// The live set after a new machine has been registered at time `now`: the
/// machines that were there, unchanged, and behind them the new one in
/// `Ready`, whose first step is due at once.
pub open spec fn registered<I>(
    machines: Seq<Machine<I>>,
    id: I,
    descriptor: String,
    now: u64,
    draw: Draw,
) -> Seq<Machine<I>> {
    machines.push(Machine { id, state: State::Ready(descriptor), draw, ready_at: now })
}

/// The live set and the event handed out when the multiplexer is asked for
/// its next event at time `now`.
///
/// If no machine is due, nothing changes and there is no event. Otherwise
/// the machine that is due first completes its step and the step's event is
/// handed out under the machine's identifier. A machine that has thereby
/// finished leaves the set; any other moves to the back of it with its next
/// step in flight, which uses `draw` and starts at `now`. All other machines
/// stay as they are.
pub open spec fn served<I>(machines: Seq<Machine<I>>, now: u64, draw: Draw) -> (
    Seq<Machine<I>>,
    Option<(I, Progress)>,
) {
    if machines.len() == 0 || machines[earliest(machines)].ready_at > now {
        (machines, None)
    } else {
        let k = earliest(machines);
        match step_of(machines[k].state, machines[k].draw) {
            Some(step) => {
                let others = machines.remove(k);
                let event = Some((machines[k].id, step.event));
                if step.state is Finished {
                    (others, event)
                } else {
                    (
                        others.push(
                            Machine {
                                id: machines[k].id,
                                state: step.state,
                                draw,
                                ready_at: deadline(now, delay_of(step.state, draw)),
                            },
                        ),
                        event,
                    )
                }
            },
            None => (machines.remove(k), None),
        }
    }
}

/// At most one position is the earliest.
pub proof fn lemma_earliest_is_unique<I>(machines: Seq<Machine<I>>, k: int)
    requires
        is_earliest(machines, k),
    ensures
        earliest(machines) == k,
{
    let chosen = earliest(machines);
    assert(is_earliest(machines, chosen));
    if chosen < k {
        assert(machines[k].ready_at < machines[chosen].ready_at);
        assert(machines[chosen].ready_at <= machines[k].ready_at);
    } else if k < chosen {
        assert(machines[chosen].ready_at < machines[k].ready_at);
        assert(machines[k].ready_at <= machines[chosen].ready_at);
    }
}

/// A live set that is not empty has an earliest machine.
pub proof fn lemma_earliest_exists<I>(machines: Seq<Machine<I>>)
    requires
        machines.len() > 0,
    ensures
        is_earliest(machines, earliest(machines)),
    decreases machines.len(),
{
    if machines.len() == 1 {
        assert(is_earliest(machines, 0));
    } else {
        let front = machines.drop_last();
        lemma_earliest_exists(front);
        let k = earliest(front);
        assert forall|i: int| 0 <= i < front.len() implies #[trigger] front[i] == machines[i] by {}
        if machines.last().ready_at < front[k].ready_at {
            let last = machines.len() - 1;
            assert forall|i: int| 0 <= i < machines.len() implies machines[last].ready_at <= (
            #[trigger] machines[i]).ready_at by {
                if i < last {
                    assert(front[i] == machines[i]);
                }
            }
            assert forall|i: int| 0 <= i < last implies machines[last].ready_at < (
            #[trigger] machines[i]).ready_at by {
                assert(front[i] == machines[i]);
            }
            assert(is_earliest(machines, last));
        } else {
            assert forall|i: int| 0 <= i < machines.len() implies machines[k].ready_at <= (
            #[trigger] machines[i]).ready_at by {
                if i < machines.len() - 1 {
                    assert(front[i] == machines[i]);
                }
            }
            assert forall|i: int| 0 <= i < k implies machines[k].ready_at < (
            #[trigger] machines[i]).ready_at by {
                assert(front[i] == machines[i]);
            }
            assert(is_earliest(machines, k));
        }
    }
}

impl<I> View for Multiplexer<I> {
    type V = Seq<Machine<I>>;

    closed spec fn view(&self) -> Seq<Machine<I>> {
        self.machines@
    }
}

impl<I: Copy> Multiplexer<I> {
    /// The invariant of the live set: every machine in it is live. `new`
    /// establishes it and every method keeps it.
    pub open spec fn wf(&self) -> bool {
        all_live(self@)
    }

    /// A multiplexer without machines.
    pub fn new() -> (multiplexer: Self)
        ensures
            multiplexer@ == Seq::<Machine<I>>::empty(),
            multiplexer.wf(),
    {
        Multiplexer { machines: Vec::new() }
    }

    /// The number of live machines.
    pub fn len(&self) -> (count: usize)
        ensures
            count == self@.len(),
    {
        self.machines.len()
    }

    /// Whether no machine is live.
    pub fn is_empty(&self) -> (empty: bool)
        ensures
            empty == (self@.len() == 0),
    {
        self.machines.len() == 0
    }

    /// Registers a new machine in `Ready` at time `now`; `draw` holds the
    /// random values of its first step. Machines already registered are not
    /// touched.
    pub fn register_with(&mut self, id: I, descriptor: String, now: u64, draw: Draw)
        requires
            old(self).wf(),
            draw.in_range(),
        ensures
            final(self)@ == registered(old(self)@, id, descriptor, now, draw),
            final(self).wf(),
    {
        self.machines.push(Machine { id, state: State::Ready(descriptor), draw, ready_at: now });
    }

    /// Registers a new machine in `Ready` at time `now`, drawing the random
    /// values of its first step.
    pub fn register(&mut self, id: I, descriptor: String, now: u64)
        requires
            old(self).wf(),
        ensures
            final(self).wf(),
            exists|draw: Draw|
                draw.in_range() && final(self)@ == #[trigger] registered(
                    old(self)@,
                    id,
                    descriptor,
                    now,
                    draw,
                ),
    {
        let state = State::Ready(descriptor);
        let draw = draw_for(&state);
        match state {
            State::Ready(descriptor) => self.register_with(id, descriptor, now, draw),
            _ => {},
        }
    }

    /// The time at which the next event is due: the earliest completion time
    /// among the steps in flight. `None` when no machine is live.
    pub fn next_deadline(&self) -> (due: Option<u64>)
        ensures
            match due {
                Some(time) => self@.len() > 0 && time == self@[earliest(self@)].ready_at,
                None => self@.len() == 0,
            },
            self@.len() > 0 ==> is_earliest(self@, earliest(self@)),
    {
        if self.machines.len() == 0 {
            None
        } else {
            let k = self.find_earliest();
            Some(self.machines[k].ready_at)
        }
    }

    /// Finds the position of the machine that is due first.
    fn find_earliest(&self) -> (k: usize)
        requires
            self@.len() > 0,
        ensures
            is_earliest(self@, k as int),
            k as int == earliest(self@),
    {
        let mut k: usize = 0;
        let mut i: usize = 1;
        while i < self.machines.len()
            invariant
                1 <= i <= self.machines@.len(),
                0 <= k < i,
                is_earliest(self.machines@.take(i as int), k as int),
            decreases self.machines@.len() - i,
        {
            if self.machines[i].ready_at < self.machines[k].ready_at {
                k = i;
            }
            i = i + 1;
            proof {
                let before = self.machines@.take(i - 1);
                let upto = self.machines@.take(i as int);
                assert forall|j: int| 0 <= j < upto.len() implies upto[k as int].ready_at <= (
                #[trigger] upto[j]).ready_at by {
                    if j < i - 1 {
                        assert(before[j] == upto[j]);
                    }
                }
                assert forall|j: int| 0 <= j < k implies upto[k as int].ready_at < (
                #[trigger] upto[j]).ready_at by {
                    assert(before[j] == upto[j]);
                }
            }
        }
        proof {
            assert(self.machines@.take(i as int) == self.machines@);
            lemma_earliest_is_unique(self@, k as int);
        }
        k
    }

    /// Takes the machine at position `k` out of the live set. A machine that
    /// has finished leaves the set this way and is never put back.
    fn deregister(&mut self, k: usize) -> (machine: Machine<I>)
        requires
            old(self).wf(),
            k < old(self)@.len(),
        ensures
            final(self).wf(),
            machine == old(self)@[k as int],
            final(self)@ == old(self)@.remove(k as int),
    {
        let machine = self.machines.remove(k);
        proof {
            let others = self.machines@;
            assert forall|i: int| 0 <= i < others.len() implies (#[trigger] others[i]).live() by {
                assert(others[i] == old(self)@[if i < k {
                    i
                } else {
                    i + 1
                }]);
            }
        }
        machine
    }

    /// Takes the machine that is due first out of the set and completes its
    /// step; `None`, and nothing changed, when no machine is due at `now`.
    fn serve(&mut self, now: u64) -> (out: Option<(I, Step)>)
        requires
            old(self).wf(),
        ensures
            final(self).wf(),
            match out {
                Some((id, step)) => {
                    let k = earliest(old(self)@);
                    &&& old(self)@.len() > 0
                    &&& old(self)@[k].ready_at <= now
                    &&& id == old(self)@[k].id
                    &&& Some(step) == step_of(old(self)@[k].state, old(self)@[k].draw)
                    &&& step.state.bounded()
                    &&& final(self)@ == old(self)@.remove(k)
                },
                None => {
                    &&& final(self)@ == old(self)@
                    &&& old(self)@.len() == 0 || old(self)@[earliest(old(self)@)].ready_at > now
                },
            },
            old(self)@.len() > 0 ==> is_earliest(old(self)@, earliest(old(self)@)),
    {
        if self.machines.len() == 0 {
            return None;
        }
        let k = self.find_earliest();
        if self.machines[k].ready_at > now {
            return None;
        }
        let machine = self.deregister(k);
        assert(machine.live());
        match download_with(machine.state, machine.draw) {
            Some(step) => Some((machine.id, step)),
            None => None,
        }
    }

    /// Puts a machine that has not finished back into the live set, behind
    /// the others, with its next step in flight from `now` on.
    fn rearm(&mut self, id: I, state: State, draw: Draw, now: u64)
        requires
            old(self).wf(),
            state !is Finished,
            state.bounded(),
            draw.in_range(),
        ensures
            final(self).wf(),
            final(self)@ == old(self)@.push(
                Machine { id, state, draw, ready_at: deadline(now, delay_of(state, draw)) },
            ),
    {
        let ready_at = now.saturating_add(delay_with(&state, draw));
        self.machines.push(Machine { id, state, draw, ready_at });
    }

    /// Hands out the next event that is due at time `now`, if there is one;
    /// `draw` holds the random values of the step that the served machine
    /// takes next. See [`served`].
    pub fn next_with(&mut self, now: u64, draw: Draw) -> (event: Option<(I, Progress)>)
        requires
            old(self).wf(),
            draw.in_range(),
        ensures
            (final(self)@, event) == served(old(self)@, now, draw),
            old(self)@.len() > 0 ==> is_earliest(old(self)@, earliest(old(self)@)),
            final(self).wf(),
    {
        match self.serve(now) {
            Some((id, step)) => {
                let Step { delay_ms: _, event, state } = step;
                match state {
                    State::Finished => {},
                    _ => self.rearm(id, state, draw, now),
                }
                Some((id, event))
            },
            None => None,
        }
    }

    /// Hands out the next event that is due at time `now`, if there is one,
    /// drawing the random values of the step that the served machine takes
    /// next: what [`Multiplexer::next_with`] does with some draw in range.
    pub fn next(&mut self, now: u64) -> (event: Option<(I, Progress)>)
        requires
            old(self).wf(),
        ensures
            final(self).wf(),
            old(self)@.len() > 0 ==> is_earliest(old(self)@, earliest(old(self)@)),
            exists|draw: Draw|
                draw.in_range() && (final(self)@, event) == #[trigger] served(
                    old(self)@,
                    now,
                    draw,
                ),
    {
        match self.serve(now) {
            Some((id, step)) => {
                let Step { delay_ms: _, event, state } = step;
                let draw = draw_for(&state);
                match state {
                    State::Finished => {},
                    _ => self.rearm(id, state, draw, now),
                }
                proof {
                    assert((self@, Some((id, event))) == served(old(self)@, now, draw));
                }
                Some((id, event))
            },
            None => {
                proof {
                    let draw = Draw { total: 10_000, chunk_size: 1_000, delay_ms: 100 };
                    assert((self@, None::<(I, Progress)>) == served(old(self)@, now, draw));
                }
                None
            },
        }
    }
}

} // verus!
