//! The state machine of one work item.
//!
//! An item starts in [`State::Ready`], reports [`Progress::Started`], then
//! downloads chunk after chunk, reporting [`Progress::Advanced`] each time,
//! until it has passed its total size; it then reports
//! [`Progress::Finished`] and stops for good.
//!
//! Every step takes its randomness from a [`Draw`] that the caller supplies,
//! so the transition function [`download_with`] is a plain function.

use vstd::prelude::*;

verus! {

/// Lower bound (inclusive) of an item's total size.
pub const TOTAL_MIN: u64 = 10_000;

/// Upper bound (exclusive) of an item's total size.
pub const TOTAL_MAX: u64 = 50_000;

/// Lower bound (inclusive) of the size of one chunk.
pub const CHUNK_MIN: u64 = 1_000;

/// Upper bound (exclusive) of the size of one chunk.
pub const CHUNK_MAX: u64 = 5_000;

/// Lower bound (inclusive) of the delay before a chunk arrives, in milliseconds.
pub const DELAY_MIN_MS: u64 = 100;

/// Upper bound (exclusive) of the delay before a chunk arrives, in milliseconds.
pub const DELAY_MAX_MS: u64 = 500;

/// The largest number of events that one item can emit when its draws are in
/// range: `Started`, fifty times `Advanced`, `Finished`.
pub const MAX_EVENTS: u64 = 52;

/// One event in the life of a work item.
///
/// `Advanced` carries the amount downloaded so far and the item's total size.
/// The percentage that it stands for is `downloaded / total * 100`; it is not
/// clamped, and exceeds 100 once the last chunk overshoots the total.
#[derive(Debug, Clone, Copy, PartialEq, Eq, Structural)]
pub enum Progress {
    Started,
    Advanced { downloaded: u64, total: u64 },
    Finished,
}

/// The state of a work item between two steps.
#[derive(Debug, PartialEq, Eq)]
pub enum State {
    /// Not started; holds the item's descriptor.
    Ready(String),
    /// Started; `downloaded` grows with every step.
    Downloading { total: u64, downloaded: u64 },
    /// Terminal.
    Finished,
}

/// The random values of one step: one sample of each quantity that a step
/// may need. A step reads only the fields that concern it.
#[derive(Debug, Clone, Copy, PartialEq, Eq, Structural)]
pub struct Draw {
    /// The total size, read by the step out of `Ready`.
    pub total: u64,
    /// The chunk size, read by a downloading step.
    pub chunk_size: u64,
    /// The delay before the chunk arrives, read by a downloading step.
    pub delay_ms: u64,
}

/// The outcome of one step.
#[derive(Debug, PartialEq, Eq)]
pub struct Step {
    /// How long the step takes before its event is due, in milliseconds.
    pub delay_ms: u64,
    /// The event that the step emits.
    pub event: Progress,
    /// The state after the step.
    pub state: State,
}

impl Draw {
    /// Every field lies in the range that its quantity is drawn from.
    pub open spec fn in_range(self) -> bool {
        &&& TOTAL_MIN <= self.total < TOTAL_MAX
        &&& CHUNK_MIN <= self.chunk_size < CHUNK_MAX
        &&& DELAY_MIN_MS <= self.delay_ms < DELAY_MAX_MS
    }
}

impl State {
    /// A chunk of `chunk_size` can be added without leaving `u64`.
    pub open spec fn admits(self, chunk_size: u64) -> bool {
        self matches State::Downloading { total, downloaded } ==> downloaded <= total
            ==> downloaded + chunk_size <= u64::MAX
    }

    /// The states that an item passes through when its draws are in range:
    /// the total is below its upper bound, and the amount downloaded has
    /// overshot it by less than one chunk.
    pub open spec fn bounded(self) -> bool {
        self matches State::Downloading { total, downloaded } ==> total < TOTAL_MAX && downloaded
            < total + CHUNK_MAX
    }
}

/// The step that an item in `state` takes with the random values `draw`;
/// `None` when the item has finished and takes no step.
pub open spec fn step_of(state: State, draw: Draw) -> Option<Step> {
    match state {
        State::Ready(_) => Some(
            Step {
                delay_ms: 0,
                event: Progress::Started,
                state: State::Downloading { total: draw.total, downloaded: 0 },
            },
        ),
        State::Downloading { total, downloaded } => if downloaded <= total {
            let reached = (downloaded + draw.chunk_size) as u64;
            Some(
                Step {
                    delay_ms: draw.delay_ms,
                    event: Progress::Advanced { downloaded: reached, total },
                    state: State::Downloading { total, downloaded: reached },
                },
            )
        } else {
            Some(Step { delay_ms: 0, event: Progress::Finished, state: State::Finished })
        },
        State::Finished => None,
    }
}

/// How long the step out of `state` takes with `draw`: the drawn delay while
/// the item is short of its total, nothing otherwise.
pub open spec fn delay_of(state: State, draw: Draw) -> u64 {
    match step_of(state, draw) {
        Some(step) => step.delay_ms,
        None => 0,
    }
}

/// Takes one step of the item's state machine with the random values `draw`.
///
/// Returns `None` exactly when `state` is `Finished`: a finished item emits
/// nothing more.
pub fn download_with(state: State, draw: Draw) -> (step: Option<Step>)
    requires
        state.admits(draw.chunk_size),
    ensures
        step == step_of(state, draw),
{
    match state {
        State::Ready(_) => Some(
            Step {
                delay_ms: 0,
                event: Progress::Started,
                state: State::Downloading { total: draw.total, downloaded: 0 },
            },
        ),
        State::Downloading { total, downloaded } => {
            if downloaded <= total {
                let downloaded: u64 = downloaded + draw.chunk_size;
                Some(
                    Step {
                        delay_ms: draw.delay_ms,
                        event: Progress::Advanced { downloaded, total },
                        state: State::Downloading { total, downloaded },
                    },
                )
            } else {
                Some(Step { delay_ms: 0, event: Progress::Finished, state: State::Finished })
            }
        },
        State::Finished => None,
    }
}

/// Computes how long the step out of `state` takes with `draw`, without
/// taking the step.
pub fn delay_with(state: &State, draw: Draw) -> (delay_ms: u64)
    ensures
        delay_ms == delay_of(*state, draw),
{
    match state {
        State::Downloading { total, downloaded } => {
            if *downloaded <= *total {
                draw.delay_ms
            } else {
                0
            }
        },
        _ => 0,
    }
}

} // verus!
