//! Where the random values of a step come from.

use crate::item::{
    download_with, step_of, Draw, State, Step, CHUNK_MAX, CHUNK_MIN, DELAY_MAX_MS, DELAY_MIN_MS,
    TOTAL_MAX, TOTAL_MIN,
};
use rand::Rng;
use vstd::prelude::*;

verus! {

/// Calls `rand::thread_rng()` and, on the generator it returns,
/// `Rng::gen_range` with the half-open range `low..high`.
///
/// Trusted: the number returned lies in the range. `gen_range` panics on an
/// empty range, which the precondition excludes. Nothing is claimed about
/// which number of the range comes back.
#[verifier::external_body]
fn gen_range(low: u64, high: u64) -> (drawn: u64)
    requires
        low < high,
    ensures
        low <= drawn < high,
{
    rand::thread_rng().gen_range(low..high)
}

/// Draws the random values that the step out of `state` needs: the total
/// size for an item that is `Ready`, the chunk size and the delay for an
/// item that is short of its total, and nothing otherwise. A field that the
/// step does not read holds the lower bound of its range.
pub fn draw_for(state: &State) -> (draw: Draw)
    ensures
        draw.in_range(),
{
    match state {
        State::Ready(_) => Draw {
            total: gen_range(TOTAL_MIN, TOTAL_MAX),
            chunk_size: CHUNK_MIN,
            delay_ms: DELAY_MIN_MS,
        },
        State::Downloading { total, downloaded } => {
            if *downloaded <= *total {
                let chunk_size = gen_range(CHUNK_MIN, CHUNK_MAX);
                let delay_ms = gen_range(DELAY_MIN_MS, DELAY_MAX_MS);
                Draw { total: TOTAL_MIN, chunk_size, delay_ms }
            } else {
                Draw { total: TOTAL_MIN, chunk_size: CHUNK_MIN, delay_ms: DELAY_MIN_MS }
            }
        },
        State::Finished => Draw {
            total: TOTAL_MIN,
            chunk_size: CHUNK_MIN,
            delay_ms: DELAY_MIN_MS,
        },
    }
}

/// Takes one step of the item's state machine with freshly drawn random
/// values: the step that [`download_with`] takes with some draw in range.
///
/// Returns `None` exactly when `state` is `Finished`.
pub fn download(state: State) -> (step: Option<Step>)
    requires
        state.admits(CHUNK_MAX),
    ensures
        exists|draw: Draw| draw.in_range() && step == #[trigger] step_of(state, draw),
        step is None <==> state is Finished,
{
    let draw = draw_for(&state);
    download_with(state, draw)
}

} // verus!
