//! The run of one work item: the events it emits, step after step, and the
//! time they take.
//!
//! [`lemma_item_run`] states the shape of every run, [`lemma_item_duration`]
//! how long a finished run has taken.

use crate::item::{
    step_of, Draw, Progress, State, CHUNK_MAX, CHUNK_MIN, DELAY_MAX_MS, DELAY_MIN_MS, MAX_EVENTS,
    TOTAL_MAX,
};
use vstd::prelude::*;

verus! {

/// The events that an item emits when it starts in `state` and takes one
/// step for each element of `draws`, until the draws run out or the item has
/// finished.
pub open spec fn events(state: State, draws: Seq<Draw>) -> Seq<Progress>
    decreases draws.len(),
{
    if draws.len() == 0 {
        Seq::empty()
    } else {
        match step_of(state, draws[0]) {
            Some(step) => seq![step.event] + events(step.state, draws.drop_first()),
            None => Seq::empty(),
        }
    }
}

/// The time in milliseconds that the steps of [`events`] take together.
pub open spec fn duration(state: State, draws: Seq<Draw>) -> int
    decreases draws.len(),
{
    if draws.len() == 0 {
        0
    } else {
        match step_of(state, draws[0]) {
            Some(step) => step.delay_ms + duration(step.state, draws.drop_first()),
            None => 0,
        }
    }
}

/// Every draw of the sequence is in range.
pub open spec fn all_in_range(draws: Seq<Draw>) -> bool {
    forall|i: int| 0 <= i < draws.len() ==> (#[trigger] draws[i]).in_range()
}

/// `run` begins the event sequence of one item: `Started` comes first and
/// only first, `Finished` comes last if at all, and the events between them
/// are `Advanced` with one total and strictly growing amounts.
pub open spec fn is_item_run(run: Seq<Progress>) -> bool {
    &&& forall|i: int| 0 <= i < run.len() ==> ((#[trigger] run[i]) is Started <==> i == 0)
    &&& forall|i: int| 0 <= i < run.len() && (#[trigger] run[i]) is Finished ==> i == run.len() - 1
    &&& forall|i: int, j: int|
        0 < i < j < run.len() && (#[trigger] run[j]) is Advanced ==> {
            &&& (#[trigger] run[i]) is Advanced
            &&& run[i]->total == run[j]->total
            &&& run[i]->downloaded < run[j]->downloaded
        }
}

/// `run` has reached its end.
pub open spec fn is_complete(run: Seq<Progress>) -> bool {
    run.len() > 0 && run.last() is Finished
}

/// The percentage of `earlier` is strictly below that of `later`, compared
/// as exact fractions `downloaded / total`.
pub open spec fn percentage_below(earlier: Progress, later: Progress) -> bool
    recommends
        earlier is Advanced,
        later is Advanced,
{
    earlier->downloaded * later->total < later->downloaded * earlier->total
}

/// The most events that an item still emits from `Downloading`: one
/// `Advanced` for each chunk of the smallest size that fits, one more that
/// overshoots, and `Finished`.
spec fn remaining(total: u64, downloaded: u64) -> int {
    if downloaded <= total {
        (total - downloaded) / 1000 + 2
    } else {
        1
    }
}

/// The number of `Advanced` events in a run that holds no `Started`.
spec fn chunks(run: Seq<Progress>) -> int {
    if is_complete(run) {
        run.len() - 1
    } else {
        run.len() as int
    }
}

proof fn lemma_drop_first_in_range(draws: Seq<Draw>)
    requires
        all_in_range(draws),
        draws.len() > 0,
    ensures
        all_in_range(draws.drop_first()),
{
    let rest = draws.drop_first();
    assert forall|i: int| 0 <= i < rest.len() implies (#[trigger] rest[i]).in_range() by {
        assert(rest[i] == draws[i + 1]);
    }
}

proof fn lemma_downloading_run(total: u64, downloaded: u64, draws: Seq<Draw>)
    requires
        total < TOTAL_MAX,
        downloaded < total + CHUNK_MAX,
        all_in_range(draws),
    ensures
        ({
            let run = events(State::Downloading { total, downloaded }, draws);
            let time = duration(State::Downloading { total, downloaded }, draws);
            &&& run.len() <= draws.len()
            &&& run.len() <= remaining(total, downloaded)
            &&& draws.len() >= remaining(total, downloaded) ==> is_complete(run)
            &&& forall|i: int| 0 <= i < run.len() ==> (#[trigger] run[i]) !is Started
            &&& forall|i: int|
                0 <= i < run.len() && (#[trigger] run[i]) is Finished ==> i == run.len() - 1
            &&& forall|i: int|
                0 <= i < run.len() && (#[trigger] run[i]) is Advanced ==> run[i]->total == total
                    && run[i]->downloaded > downloaded
            &&& forall|i: int, j: int|
                0 <= i < j < run.len() && (#[trigger] run[j]) is Advanced ==> (#[trigger] run[i])
                    is Advanced && run[i]->downloaded < run[j]->downloaded
            &&& 100 * chunks(run) <= time <= 499 * chunks(run)
            &&& is_complete(run) ==> downloaded + 4999 * chunks(run) > total
            &&& is_complete(run) && downloaded <= total ==> chunks(run) >= 1 && downloaded + 1000
                * (chunks(run) - 1) <= total
        }),
    decreases draws.len(),
{
    let state = State::Downloading { total, downloaded };
    let run = events(state, draws);
    if draws.len() == 0 {
    } else if downloaded <= total {
        let draw = draws[0];
        assert(draw.in_range());
        let reached = (downloaded + draw.chunk_size) as u64;
        let first = Progress::Advanced { downloaded: reached, total };
        let rest_draws = draws.drop_first();
        lemma_drop_first_in_range(draws);
        lemma_downloading_run(total, reached, rest_draws);
        let rest = events(State::Downloading { total, downloaded: reached }, rest_draws);
        assert(run == seq![first] + rest);
        assert(run[0] == first);
        assert forall|i: int| 0 < i < run.len() implies #[trigger] run[i] == rest[i - 1] by {}
        assert(is_complete(run) <==> is_complete(rest)) by {
            if rest.len() > 0 {
                assert(run.last() == rest.last());
            }
        }
        assert(chunks(run) == chunks(rest) + 1);
        assert(remaining(total, reached) <= remaining(total, downloaded) - 1);
        assert forall|i: int, j: int|
            0 <= i < j < run.len() && (#[trigger] run[j]) is Advanced implies (#[trigger] run[i])
            is Advanced && run[i]->downloaded < run[j]->downloaded by {
            assert(run[j] == rest[j - 1]);
            if i > 0 {
                assert(run[i] == rest[i - 1]);
            }
        }
    } else {
        assert(events(State::Finished, draws.drop_first()) =~= Seq::empty());
        assert(duration(State::Finished, draws.drop_first()) == 0);
        assert(run =~= seq![Progress::Finished]);
    }
}

/// Every item emits `Started`, then `Advanced` events with strictly growing
/// amounts, then `Finished`, and nothing after that.
///
/// Whatever the descriptor and whatever the draws, as long as they are in
/// range: the events of an item that starts in `Ready` form such a run; no
/// run is longer than `MAX_EVENTS`; after that many steps the run is
/// complete; and every `Advanced` carries the total of the first draw.
pub proof fn lemma_item_run(descriptor: String, draws: Seq<Draw>)
    requires
        all_in_range(draws),
    ensures
        ({
            let run = events(State::Ready(descriptor), draws);
            &&& is_item_run(run)
            &&& run.len() <= draws.len()
            &&& run.len() <= MAX_EVENTS
            &&& draws.len() >= MAX_EVENTS ==> is_complete(run)
            &&& forall|i: int|
                0 <= i < run.len() && (#[trigger] run[i]) is Advanced ==> run[i]->total
                    == draws[0].total
        }),
{
    let run = events(State::Ready(descriptor), draws);
    if draws.len() > 0 {
        let total = draws[0].total;
        assert(draws[0].in_range());
        let rest_draws = draws.drop_first();
        lemma_drop_first_in_range(draws);
        lemma_downloading_run(total, 0, rest_draws);
        let rest = events(State::Downloading { total, downloaded: 0 }, rest_draws);
        assert(run == seq![Progress::Started] + rest);
        assert(run[0] == Progress::Started);
        assert forall|i: int| 0 < i < run.len() implies #[trigger] run[i] == rest[i - 1] by {}
        assert(is_complete(rest) ==> is_complete(run)) by {
            if rest.len() > 0 {
                assert(run.last() == rest.last());
            }
        }
        assert forall|i: int, j: int|
            0 < i < j < run.len() && (#[trigger] run[j]) is Advanced implies {
            &&& (#[trigger] run[i]) is Advanced
            &&& run[i]->total == run[j]->total
            &&& run[i]->downloaded < run[j]->downloaded
        } by {
            assert(run[j] == rest[j - 1]);
            assert(run[i] == rest[i - 1]);
        }
    }
}

/// In a run of one item the percentage grows strictly from one `Advanced`
/// to the next.
pub proof fn lemma_percentages_increase(descriptor: String, draws: Seq<Draw>, i: int, j: int)
    requires
        all_in_range(draws),
        0 <= i < j < events(State::Ready(descriptor), draws).len(),
        events(State::Ready(descriptor), draws)[i] is Advanced,
        events(State::Ready(descriptor), draws)[j] is Advanced,
    ensures
        percentage_below(
            events(State::Ready(descriptor), draws)[i],
            events(State::Ready(descriptor), draws)[j],
        ),
{
    let run = events(State::Ready(descriptor), draws);
    lemma_item_run(descriptor, draws);
    assert(draws[0].in_range());
    let total = draws[0].total as int;
    let a = run[i]->downloaded as int;
    let b = run[j]->downloaded as int;
    assert(run[i]->total == total && run[j]->total == total);
    assert(a < b);
    assert(a * total < b * total) by (nonlinear_arith)
        requires
            a < b,
            total > 0,
    ;
}

/// How long a finished item has taken.
///
/// A complete run of an item with total size `total` holds `n` events
/// `Advanced`, where `(n - 1) * CHUNK_MIN <= total < n * (CHUNK_MAX - 1)`,
/// and each of them took at least `DELAY_MIN_MS` and less than
/// `DELAY_MAX_MS`. So the run took more than `total / CHUNK_MAX *
/// DELAY_MIN_MS`, and at most `(total / CHUNK_MIN + 1) * (DELAY_MAX_MS - 1)`.
pub proof fn lemma_item_duration(descriptor: String, draws: Seq<Draw>)
    requires
        all_in_range(draws),
        is_complete(events(State::Ready(descriptor), draws)),
    ensures
        ({
            let run = events(State::Ready(descriptor), draws);
            let time = duration(State::Ready(descriptor), draws);
            let total = draws[0].total;
            let n = run.len() - 2;
            &&& n >= 3
            &&& (n - 1) * CHUNK_MIN <= total < n * (CHUNK_MAX - 1)
            &&& n * DELAY_MIN_MS <= time <= n * (DELAY_MAX_MS - 1)
            &&& total * DELAY_MIN_MS < time * CHUNK_MAX
            &&& time * CHUNK_MIN <= (total + CHUNK_MIN) * (DELAY_MAX_MS - 1)
        }),
{
    let run = events(State::Ready(descriptor), draws);
    let total = draws[0].total;
    assert(draws[0].in_range());
    let rest_draws = draws.drop_first();
    lemma_drop_first_in_range(draws);
    lemma_downloading_run(total, 0, rest_draws);
    let rest = events(State::Downloading { total, downloaded: 0 }, rest_draws);
    assert(run == seq![Progress::Started] + rest);
    assert(run[0] == Progress::Started);
    assert(rest.len() > 0);
    assert(run.last() == rest.last());
    assert(is_complete(rest));
    assert(chunks(rest) == run.len() - 2);
}

} // verus!
