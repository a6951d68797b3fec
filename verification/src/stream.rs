//! What holds of the merged event stream, whatever calls are made on the
//! multiplexer and in whatever order.
//!
//! * [`lemma_item_runs_alone`]: the events handed out under one identifier
//!   are the run of one item, however the events of other items are
//!   interleaved with them.
//! * [`lemma_machine_runs_alone`]: they are exactly the events of that
//!   item's own state machine on the draws that its steps were given.
//! * [`lemma_silent_after_finished`]: once `Finished` has been handed out
//!   under an identifier, nothing more is.

use crate::item::{delay_of, step_of, Draw, Progress, State, MAX_EVENTS};
use crate::multiplexer::{
    all_live, deadline, earliest, lemma_earliest_exists, registered, served, Machine,
};
use crate::run::{all_in_range, events, is_item_run, lemma_item_run};
use vstd::prelude::*;

verus! {

/// One call on the multiplexer.
pub enum Call<I> {
    /// `register_with(id, descriptor, now, draw)`.
    Register { id: I, descriptor: String, now: u64, draw: Draw },
    /// `next_with(now, draw)`.
    Next { now: u64, draw: Draw },
}

impl<I> Call<I> {
    /// The random values that the call brings.
    pub open spec fn draw(self) -> Draw {
        match self {
            Call::Register { draw, .. } => draw,
            Call::Next { draw, .. } => draw,
        }
    }

    /// The call registers a machine under `id`.
    pub open spec fn registers(self, id: I) -> bool {
        self matches Call::Register { id: registered, .. } && registered == id
    }
}

/// The live set after `call`, and the event that the call hands out.
pub open spec fn applied<I>(machines: Seq<Machine<I>>, call: Call<I>) -> (
    Seq<Machine<I>>,
    Option<(I, Progress)>,
) {
    match call {
        Call::Register { id, descriptor, now, draw } => (
            registered(machines, id, descriptor, now, draw),
            None,
        ),
        Call::Next { now, draw } => served(machines, now, draw),
    }
}

/// The event that the call hands out under `id`, if it hands out one.
pub open spec fn handed_out<I>(machines: Seq<Machine<I>>, call: Call<I>, id: I) -> Option<
    Progress,
> {
    match applied(machines, call).1 {
        Some((from, progress)) => if from == id {
            Some(progress)
        } else {
            None
        },
        None => None,
    }
}

/// The call hands out an event under `id`.
pub open spec fn serves<I>(machines: Seq<Machine<I>>, call: Call<I>, id: I) -> bool {
    handed_out(machines, call, id) is Some
}

/// The events handed out under `id`, in order, while `calls` are made one
/// after the other on a multiplexer that holds `machines`.
pub open spec fn emitted<I>(machines: Seq<Machine<I>>, calls: Seq<Call<I>>, id: I) -> Seq<
    Progress,
>
    decreases calls.len(),
{
    if calls.len() == 0 {
        Seq::empty()
    } else {
        let rest = emitted(applied(machines, calls[0]).0, calls.drop_first(), id);
        match handed_out(machines, calls[0], id) {
            Some(progress) => seq![progress] + rest,
            None => rest,
        }
    }
}

/// The draws of the steps that are completed under `id` while `calls` are
/// made: for each event of [`emitted`], the draw of the step that emitted it.
pub open spec fn steps<I>(machines: Seq<Machine<I>>, calls: Seq<Call<I>>, id: I) -> Seq<Draw>
    decreases calls.len(),
{
    if calls.len() == 0 {
        Seq::empty()
    } else {
        let rest = steps(applied(machines, calls[0]).0, calls.drop_first(), id);
        if serves(machines, calls[0], id) {
            seq![machines[earliest(machines)].draw] + rest
        } else {
            rest
        }
    }
}

/// How many of the calls register a machine under `id`.
pub open spec fn registrations<I>(calls: Seq<Call<I>>, id: I) -> nat
    decreases calls.len(),
{
    if calls.len() == 0 {
        0
    } else {
        registrations(calls.drop_first(), id) + if calls[0].registers(id) {
            1nat
        } else {
            0nat
        }
    }
}

/// Every call brings a draw in range.
pub open spec fn calls_in_range<I>(calls: Seq<Call<I>>) -> bool {
    forall|p: int| 0 <= p < calls.len() ==> (#[trigger] calls[p]).draw().in_range()
}

/// Some live machine carries `id`.
pub open spec fn holds<I>(machines: Seq<Machine<I>>, id: I) -> bool {
    exists|k: int| 0 <= k < machines.len() && (#[trigger] machines[k]).id == id
}

/// The position of a live machine that carries `id`.
pub open spec fn position<I>(machines: Seq<Machine<I>>, id: I) -> int {
    choose|k: int| 0 <= k < machines.len() && (#[trigger] machines[k]).id == id
}

/// No two live machines carry `id`.
pub open spec fn at_most_one<I>(machines: Seq<Machine<I>>, id: I) -> bool {
    forall|i: int, j: int|
        #![trigger machines[i], machines[j]]
        0 <= i < machines.len() && 0 <= j < machines.len() && machines[i].id == id
            && machines[j].id == id ==> i == j
}

/// `id` is in use at most once: by one live machine and no later
/// registration, or by no live machine and at most one registration.
pub open spec fn used_once<I>(machines: Seq<Machine<I>>, calls: Seq<Call<I>>, id: I) -> bool {
    &&& at_most_one(machines, id)
    &&& registrations(calls, id) + (if holds(machines, id) {
        1nat
    } else {
        0nat
    }) <= 1
}

/// The live machine that carries `id`, if there is one.
spec fn slot<I>(machines: Seq<Machine<I>>, id: I) -> Option<Machine<I>> {
    if holds(machines, id) {
        Some(machines[position(machines, id)])
    } else {
        None
    }
}

proof fn lemma_slot_at<I>(machines: Seq<Machine<I>>, id: I, k: int)
    requires
        at_most_one(machines, id),
        0 <= k < machines.len(),
        machines[k].id == id,
    ensures
        holds(machines, id),
        position(machines, id) == k,
        slot(machines, id) == Some(machines[k]),
{
    let p = position(machines, id);
    assert(machines[p].id == id && machines[k].id == id);
}

proof fn lemma_slot_push<I>(machines: Seq<Machine<I>>, machine: Machine<I>, id: I)
    requires
        at_most_one(machines, id),
        machine.id == id ==> !holds(machines, id),
    ensures
        at_most_one(machines.push(machine), id),
        slot(machines.push(machine), id) == if machine.id == id {
            Some(machine)
        } else {
            slot(machines, id)
        },
{
    let pushed = machines.push(machine);
    let last = machines.len() as int;
    assert forall|i: int| 0 <= i < last implies #[trigger] pushed[i] == machines[i] by {}
    assert(pushed[last] == machine);
    assert forall|i: int, j: int|
        0 <= i < pushed.len() && 0 <= j < pushed.len() && pushed[i].id == id && pushed[j].id
            == id implies i == j by {
        if i < last {
            assert(machines[i].id == id);
        }
        if j < last {
            assert(machines[j].id == id);
        }
    }
    if machine.id == id {
        lemma_slot_at(pushed, id, last);
    } else if holds(machines, id) {
        let p = position(machines, id);
        assert(pushed[p] == machines[p]);
        lemma_slot_at(pushed, id, p);
    } else {
        if holds(pushed, id) {
            let p = position(pushed, id);
            assert(machines[p].id == id);
        }
    }
}

proof fn lemma_slot_remove<I>(machines: Seq<Machine<I>>, k: int, id: I)
    requires
        at_most_one(machines, id),
        0 <= k < machines.len(),
    ensures
        at_most_one(machines.remove(k), id),
        slot(machines.remove(k), id) == if machines[k].id == id {
            None
        } else {
            slot(machines, id)
        },
{
    let others = machines.remove(k);
    assert forall|i: int| 0 <= i < others.len() implies #[trigger] others[i] == machines[if i
        < k {
        i
    } else {
        i + 1
    }] by {}
    assert forall|i: int, j: int|
        0 <= i < others.len() && 0 <= j < others.len() && others[i].id == id && others[j].id
            == id implies i == j by {
        let from_i = if i < k {
            i
        } else {
            i + 1
        };
        let from_j = if j < k {
            j
        } else {
            j + 1
        };
        assert(machines[from_i].id == id && machines[from_j].id == id);
    }
    if holds(others, id) {
        let p = position(others, id);
        let from = if p < k {
            p
        } else {
            p + 1
        };
        assert(machines[from].id == id && machines[k] == machines[k]);
        lemma_slot_at(machines, id, from);
    } else if holds(machines, id) {
        let p = position(machines, id);
        if p != k {
            let to = if p < k {
                p
            } else {
                p - 1
            };
            assert(others[to] == machines[p]);
        }
    }
}

proof fn lemma_all_live_remove<I>(machines: Seq<Machine<I>>, k: int)
    requires
        all_live(machines),
        0 <= k < machines.len(),
    ensures
        all_live(machines.remove(k)),
{
    let others = machines.remove(k);
    assert forall|i: int| 0 <= i < others.len() implies (#[trigger] others[i]).live() by {
        assert(others[i] == machines[if i < k {
            i
        } else {
            i + 1
        }]);
    }
}

proof fn lemma_all_live_push<I>(machines: Seq<Machine<I>>, machine: Machine<I>)
    requires
        all_live(machines),
        machine.live(),
    ensures
        all_live(machines.push(machine)),
{
    let pushed = machines.push(machine);
    assert forall|i: int| 0 <= i < pushed.len() implies (#[trigger] pushed[i]).live() by {
        if i < machines.len() {
            assert(pushed[i] == machines[i]);
        }
    }
}

/// What one call does to the machine that carries `id`.
proof fn lemma_applied<I>(machines: Seq<Machine<I>>, call: Call<I>, id: I)
    requires
        all_live(machines),
        call.draw().in_range(),
        at_most_one(machines, id),
        call.registers(id) ==> !holds(machines, id),
    ensures
        ({
            let next = applied(machines, call).0;
            let before = slot(machines, id);
            let after = slot(next, id);
            &&& all_live(next)
            &&& at_most_one(next, id)
            &&& if serves(machines, call, id) {
                &&& before is Some
                &&& before->0.draw == machines[earliest(machines)].draw
                &&& step_of(before->0.state, before->0.draw) matches Some(step)
                &&& handed_out(machines, call, id) == Some(step.event)
                &&& if step.state is Finished {
                    after is None
                } else {
                    after is Some && after->0.state == step.state && after->0.draw
                        == call.draw()
                }
            } else if call.registers(id) {
                &&& after is Some
                &&& after->0.state == State::Ready(call->descriptor)
                &&& after->0.draw == call.draw()
            } else {
                match before {
                    Some(machine) => after is Some && after->0.state == machine.state
                        && after->0.draw == machine.draw,
                    None => after is None,
                }
            }
        }),
{
    match call {
        Call::Register { id: registered, descriptor, now, draw } => {
            let machine = Machine {
                id: registered,
                state: State::Ready(descriptor),
                draw,
                ready_at: now,
            };
            lemma_all_live_push(machines, machine);
            lemma_slot_push(machines, machine, id);
        },
        Call::Next { now, draw } => {
            if machines.len() > 0 {
                lemma_earliest_exists(machines);
                let k = earliest(machines);
                if machines[k].ready_at <= now {
                    let served = machines[k];
                    assert(served.live());
                    let step = step_of(served.state, served.draw)->0;
                    let others = machines.remove(k);
                    lemma_all_live_remove(machines, k);
                    lemma_slot_remove(machines, k, id);
                    if served.id == id {
                        lemma_slot_at(machines, id, k);
                    }
                    if step.state !is Finished {
                        let machine = Machine {
                            id: served.id,
                            state: step.state,
                            draw,
                            ready_at: deadline(now, delay_of(step.state, draw)),
                        };
                        assert(machine.live());
                        lemma_all_live_push(others, machine);
                        lemma_slot_push(others, machine, id);
                    }
                }
            }
        },
    }
}

proof fn lemma_drop_first_calls<I>(calls: Seq<Call<I>>)
    requires
        calls_in_range(calls),
        calls.len() > 0,
    ensures
        calls_in_range(calls.drop_first()),
        calls[0].draw().in_range(),
{
    let rest = calls.drop_first();
    assert forall|p: int| 0 <= p < rest.len() implies (#[trigger] rest[p]).draw().in_range() by {
        assert(rest[p] == calls[p + 1]);
    }
}

/// The events handed out under `id` and the draws of their steps, by
/// induction over the calls.
proof fn lemma_emitted<I>(machines: Seq<Machine<I>>, calls: Seq<Call<I>>, id: I)
    requires
        all_live(machines),
        calls_in_range(calls),
        used_once(machines, calls, id),
    ensures
        all_in_range(steps(machines, calls, id)),
        match slot(machines, id) {
            Some(machine) => {
                &&& emitted(machines, calls, id) == events(
                    machine.state,
                    steps(machines, calls, id),
                )
                &&& emitted(machines, calls, id).len() == steps(machines, calls, id).len()
                &&& steps(machines, calls, id).len() > 0 ==> steps(machines, calls, id)[0]
                    == machine.draw
            },
            None => {
                &&& is_item_run(emitted(machines, calls, id))
                &&& emitted(machines, calls, id).len() <= MAX_EVENTS
                &&& registrations(calls, id) == 0 ==> emitted(machines, calls, id).len() == 0
                    && steps(machines, calls, id).len() == 0
            },
        },
    decreases calls.len(),
{
    if calls.len() > 0 {
        let call = calls[0];
        let rest = calls.drop_first();
        let next = applied(machines, call).0;
        lemma_drop_first_calls(calls);
        lemma_applied(machines, call, id);
        lemma_emitted(next, rest, id);
        let later = emitted(next, rest, id);
        let later_steps = steps(next, rest, id);
        if serves(machines, call, id) {
            let machine = slot(machines, id)->0;
            let step = step_of(machine.state, machine.draw)->0;
            let all_steps = steps(machines, calls, id);
            assert(all_steps == seq![machine.draw] + later_steps);
            assert(all_steps[0] == machine.draw);
            assert(all_steps.drop_first() =~= later_steps);
            assert(machine.live());
            assert forall|i: int| 0 <= i < all_steps.len() implies (
            #[trigger] all_steps[i]).in_range() by {
                if i > 0 {
                    assert(all_steps[i] == later_steps[i - 1]);
                }
            }
            if step.state is Finished {
                assert(later.len() == 0 && later_steps.len() == 0);
                assert(events(step.state, later_steps) =~= Seq::empty());
            }
            assert(emitted(machines, calls, id) == seq![step.event] + later);
            assert(later == events(step.state, later_steps));
        } else if call.registers(id) {
            lemma_item_run(call->descriptor, later_steps);
        }
    }
}

/// The events handed out under the identifier of a live machine are the
/// events of that machine's own state machine, on the draws that its steps
/// were given, whatever other machines are registered and served in between.
pub proof fn lemma_machine_runs_alone<I>(
    machines: Seq<Machine<I>>,
    calls: Seq<Call<I>>,
    id: I,
    k: int,
)
    requires
        all_live(machines),
        calls_in_range(calls),
        at_most_one(machines, id),
        registrations(calls, id) == 0,
        0 <= k < machines.len(),
        machines[k].id == id,
    ensures
        emitted(machines, calls, id) == events(machines[k].state, steps(machines, calls, id)),
        emitted(machines, calls, id).len() == steps(machines, calls, id).len(),
        all_in_range(steps(machines, calls, id)),
        steps(machines, calls, id).len() > 0 ==> steps(machines, calls, id)[0]
            == machines[k].draw,
{
    lemma_slot_at(machines, id, k);
    lemma_emitted(machines, calls, id);
}

/// Items run independently of each other.
///
/// Take an identifier that no live machine carries and that at most one of
/// the calls registers. However the calls interleave the steps of this item
/// with those of others, the events handed out under the identifier are the
/// run of one item: `Started` first — so nothing before it —, then
/// `Advanced` with strictly growing amounts, then at most one `Finished`
/// and nothing after it; at most `MAX_EVENTS` in all. If no call registers
/// the identifier, nothing is handed out under it.
pub proof fn lemma_item_runs_alone<I>(machines: Seq<Machine<I>>, calls: Seq<Call<I>>, id: I)
    requires
        all_live(machines),
        calls_in_range(calls),
        !holds(machines, id),
        registrations(calls, id) <= 1,
    ensures
        is_item_run(emitted(machines, calls, id)),
        emitted(machines, calls, id).len() <= MAX_EVENTS,
        registrations(calls, id) == 0 ==> emitted(machines, calls, id).len() == 0,
{
    lemma_emitted(machines, calls, id);
}

/// After `Finished` no further event is handed out for the item.
///
/// If the call `next_with(now, draw)` hands out `Finished` under `id`, then
/// whatever calls follow, and as long as none of them registers `id` anew,
/// no event is handed out under `id` again.
pub proof fn lemma_silent_after_finished<I>(
    machines: Seq<Machine<I>>,
    now: u64,
    draw: Draw,
    calls: Seq<Call<I>>,
    id: I,
)
    requires
        all_live(machines),
        draw.in_range(),
        calls_in_range(calls),
        at_most_one(machines, id),
        registrations(calls, id) == 0,
        served(machines, now, draw).1 == Some((id, Progress::Finished)),
    ensures
        !holds(served(machines, now, draw).0, id),
        emitted(served(machines, now, draw).0, calls, id).len() == 0,
{
    let call = Call::Next { now, draw };
    assert(serves(machines, call, id));
    lemma_applied(machines, call, id);
    let machine = slot(machines, id)->0;
    let step = step_of(machine.state, machine.draw)->0;
    assert(step.event is Finished);
    assert(step.state is Finished);
    lemma_emitted(served(machines, now, draw).0, calls, id);
}

} // verus!
