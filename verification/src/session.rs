//! What a worker reports over any sequence of inputs.
//!
//! * [`lemma_announced_first`]: a worker reports `Initialized` once, before
//!   anything else.
//! * [`lemma_running_worker_relays`]: a running worker reports exactly what
//!   its multiplexer hands out.
//! * [`lemma_downloads_run_alone`] and [`lemma_nothing_after_finished`]
//!   carry what holds of the merged stream over to the worker's reports.

use crate::item::{Draw, Progress, MAX_EVENTS};
use crate::multiplexer::{all_live, served, Machine};
use crate::run::is_item_run;
use crate::stream::{
    applied, at_most_one, calls_in_range, emitted, holds, lemma_item_runs_alone,
    lemma_silent_after_finished, registrations, Call,
};
use crate::worker::{polled, received, reported, DownloaderEvent, DownloaderMessage, Phase};
use vstd::prelude::*;

verus! {

/// One input to the worker.
pub enum Input<I> {
    /// `receive_with(message, now, draw)`.
    Receive { message: DownloaderMessage<I>, now: u64, draw: Draw },
    /// `poll_with(now, draw)`.
    Poll { now: u64, draw: Draw },
}

/// The phase and the live set after `input`, and what the worker reports on
/// it.
pub open spec fn taken<I>(phase: Phase, machines: Seq<Machine<I>>, input: Input<I>) -> (
    Phase,
    Seq<Machine<I>>,
    Option<DownloaderEvent<I>>,
) {
    match input {
        Input::Receive { message, now, draw } => (
            phase,
            received(phase, machines, message, now, draw),
            None,
        ),
        Input::Poll { now, draw } => (
            Phase::Running,
            polled(phase, machines, now, draw).0,
            polled(phase, machines, now, draw).1,
        ),
    }
}

/// The worker's reports, in order, while it is given `inputs` one after the
/// other.
pub open spec fn reports<I>(phase: Phase, machines: Seq<Machine<I>>, inputs: Seq<Input<I>>) -> Seq<
    DownloaderEvent<I>,
>
    decreases inputs.len(),
{
    if inputs.len() == 0 {
        Seq::empty()
    } else {
        let after = taken(phase, machines, inputs[0]);
        let rest = reports(after.0, after.1, inputs.drop_first());
        match after.2 {
            Some(event) => seq![event] + rest,
            None => rest,
        }
    }
}

/// The events of `reports` that belong to the download `id`, in order.
pub open spec fn progress_under<I>(reports: Seq<DownloaderEvent<I>>, id: I) -> Seq<Progress>
    decreases reports.len(),
{
    if reports.len() == 0 {
        Seq::empty()
    } else {
        let rest = progress_under(reports.drop_first(), id);
        match reports[0] {
            DownloaderEvent::Progress(from, progress) => if from == id {
                seq![progress] + rest
            } else {
                rest
            },
            DownloaderEvent::Initialized => rest,
        }
    }
}

/// The call that a running worker makes on its multiplexer for `input`.
pub open spec fn call_of<I>(input: Input<I>) -> Call<I> {
    match input {
        Input::Receive { message: DownloaderMessage::Download(id, descriptor), now, draw } => {
            Call::Register { id, descriptor, now, draw }
        },
        Input::Poll { now, draw } => Call::Next { now, draw },
    }
}

/// The calls that a running worker makes on its multiplexer for `inputs`.
pub open spec fn calls_of<I>(inputs: Seq<Input<I>>) -> Seq<Call<I>> {
    Seq::new(inputs.len(), |p: int| call_of(inputs[p]))
}

proof fn lemma_calls_of_rest<I>(inputs: Seq<Input<I>>)
    requires
        inputs.len() > 0,
    ensures
        calls_of(inputs)[0] == call_of(inputs[0]),
        calls_of(inputs).drop_first() == calls_of(inputs.drop_first()),
        calls_in_range(calls_of(inputs)) ==> calls_in_range(calls_of(inputs.drop_first())),
{
    let calls = calls_of(inputs);
    let rest = calls_of(inputs.drop_first());
    assert(calls.drop_first() =~= rest);
    if calls_in_range(calls) {
        assert forall|p: int| 0 <= p < rest.len() implies (#[trigger] rest[p]).draw().in_range() by {
            assert(rest[p] == calls[p + 1]);
        }
    }
}

proof fn lemma_running_reports<I>(machines: Seq<Machine<I>>, inputs: Seq<Input<I>>)
    ensures
        forall|i: int|
            0 <= i < reports(Phase::Running, machines, inputs).len() ==> (#[trigger] reports(
                Phase::Running,
                machines,
                inputs,
            )[i]) is Progress,
    decreases inputs.len(),
{
    if inputs.len() > 0 {
        let after = taken(Phase::Running, machines, inputs[0]);
        lemma_running_reports(after.1, inputs.drop_first());
        let all = reports(Phase::Running, machines, inputs);
        let rest = reports(Phase::Running, after.1, inputs.drop_first());
        assert forall|i: int| 0 <= i < all.len() implies (#[trigger] all[i]) is Progress by {
            if after.2 is Some && i > 0 {
                assert(all[i] == rest[i - 1]);
            }
        }
    }
}

/// The worker announces itself once, and first.
///
/// Whatever a worker that is not yet running is given, `Initialized` is the
/// first thing it reports and it is never reported again: every `Progress`
/// comes after it.
pub proof fn lemma_announced_first<I>(machines: Seq<Machine<I>>, inputs: Seq<Input<I>>)
    ensures
        forall|i: int|
            0 <= i < reports(Phase::Uninitialized, machines, inputs).len() ==> ((#[trigger] reports(
                Phase::Uninitialized,
                machines,
                inputs,
            )[i]) is Initialized <==> i == 0),
    decreases inputs.len(),
{
    if inputs.len() > 0 {
        let after = taken(Phase::Uninitialized, machines, inputs[0]);
        let all = reports(Phase::Uninitialized, machines, inputs);
        let rest = reports(after.0, after.1, inputs.drop_first());
        match inputs[0] {
            Input::Receive { .. } => {
                lemma_announced_first(after.1, inputs.drop_first());
            },
            Input::Poll { .. } => {
                lemma_running_reports(after.1, inputs.drop_first());
                assert(all == seq![DownloaderEvent::Initialized] + rest);
                assert forall|i: int| 0 <= i < all.len() implies ((#[trigger] all[i])
                    is Initialized <==> i == 0) by {
                    if i > 0 {
                        assert(all[i] == rest[i - 1]);
                    }
                }
            },
        }
    }
}

/// A running worker reports exactly what its multiplexer hands out: the
/// events that it reports for the download `id` are the events that the
/// multiplexer hands out under `id` on the calls that the inputs stand for.
pub proof fn lemma_running_worker_relays<I>(
    machines: Seq<Machine<I>>,
    inputs: Seq<Input<I>>,
    id: I,
)
    ensures
        progress_under(reports(Phase::Running, machines, inputs), id) == emitted(
            machines,
            calls_of(inputs),
            id,
        ),
    decreases inputs.len(),
{
    if inputs.len() > 0 {
        let input = inputs[0];
        let after = taken(Phase::Running, machines, input);
        let rest = reports(Phase::Running, after.1, inputs.drop_first());
        lemma_calls_of_rest(inputs);
        lemma_running_worker_relays(after.1, inputs.drop_first(), id);
        assert(after.1 == applied(machines, call_of(input)).0);
        assert(after.2 == reported(applied(machines, call_of(input)).1));
        match after.2 {
            Some(event) => {
                let all = seq![event] + rest;
                assert(all[0] == event);
                assert(all.drop_first() =~= rest);
            },
            None => {},
        }
    }
}

/// Every input brings a draw in range.
pub open spec fn inputs_in_range<I>(inputs: Seq<Input<I>>) -> bool {
    calls_in_range(calls_of(inputs))
}

/// How many of the inputs ask for a download under `id`.
pub open spec fn requests<I>(inputs: Seq<Input<I>>, id: I) -> nat {
    registrations(calls_of(inputs), id)
}

proof fn lemma_requests_rest<I>(inputs: Seq<Input<I>>, id: I)
    requires
        inputs.len() > 0,
    ensures
        requests(inputs.drop_first(), id) <= requests(inputs, id),
{
    lemma_calls_of_rest(inputs);
}

/// Downloads run independently of each other.
///
/// Take a download `id` that is not live and that at most one input asks
/// for. Whatever else the worker is given and in whatever order, the events
/// that it reports for `id` are the run of one item: `Started` first, then
/// `Advanced` with strictly growing amounts, then at most one `Finished`,
/// and nothing after it.
pub proof fn lemma_downloads_run_alone<I>(
    phase: Phase,
    machines: Seq<Machine<I>>,
    inputs: Seq<Input<I>>,
    id: I,
)
    requires
        all_live(machines),
        inputs_in_range(inputs),
        !holds(machines, id),
        requests(inputs, id) <= 1,
    ensures
        is_item_run(progress_under(reports(phase, machines, inputs), id)),
        progress_under(reports(phase, machines, inputs), id).len() <= MAX_EVENTS,
    decreases inputs.len(),
{
    match phase {
        Phase::Running => {
            lemma_running_worker_relays(machines, inputs, id);
            lemma_item_runs_alone(machines, calls_of(inputs), id);
        },
        Phase::Uninitialized => {
            if inputs.len() > 0 {
                let after = taken(phase, machines, inputs[0]);
                let rest = reports(after.0, after.1, inputs.drop_first());
                lemma_calls_of_rest(inputs);
                lemma_requests_rest(inputs, id);
                lemma_downloads_run_alone(after.0, machines, inputs.drop_first(), id);
                match inputs[0] {
                    Input::Receive { .. } => {},
                    Input::Poll { .. } => {
                        let all = seq![DownloaderEvent::<I>::Initialized] + rest;
                        assert(all[0] == DownloaderEvent::<I>::Initialized);
                        assert(all.drop_first() =~= rest);
                    },
                }
            }
        },
    }
}

/// After `Finished` the worker reports nothing more for the download.
///
/// If a poll of a running worker reports `Finished` for the download `id`,
/// then whatever the worker is given afterwards, and as long as no input
/// asks for `id` anew, it reports no further event for `id`.
pub proof fn lemma_nothing_after_finished<I>(
    machines: Seq<Machine<I>>,
    now: u64,
    draw: Draw,
    inputs: Seq<Input<I>>,
    id: I,
)
    requires
        all_live(machines),
        draw.in_range(),
        inputs_in_range(inputs),
        at_most_one(machines, id),
        requests(inputs, id) == 0,
        polled(Phase::Running, machines, now, draw).1 == Some(
            DownloaderEvent::Progress(id, Progress::Finished),
        ),
    ensures
        progress_under(
            reports(Phase::Running, polled(Phase::Running, machines, now, draw).0, inputs),
            id,
        ).len() == 0,
{
    let next = served(machines, now, draw).0;
    assert(served(machines, now, draw).1 == Some((id, Progress::Finished)));
    lemma_silent_after_finished(machines, now, draw, calls_of(inputs), id);
    lemma_running_worker_relays(next, inputs, id);
}

} // verus!
