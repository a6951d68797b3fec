//! A download worker without I/O of its own.
//!
//! The worker accepts work items, advances each of them through a randomised
//! sequence of progress steps, and merges the events of all items into one
//! stream. Nothing in this crate sleeps, reads a clock or touches a channel:
//! the caller hands in the current time in milliseconds, asks when to come
//! back, and forwards what it is given.
//!
//! * [`item`]: the state machine of one work item.
//! * [`run`]: the event sequence of one item, and what holds of it.
//! * [`random`]: where the random draws come from.
//! * [`multiplexer`]: the live set of state machines and their merged stream.
//! * [`stream`]: what holds of the merged stream over any sequence of calls.
//! * [`worker`]: the supervisor that owns the multiplexer.
//! * [`session`]: what a worker reports over any sequence of inputs.

pub mod item;
pub mod multiplexer;
pub mod random;
pub mod run;
pub mod session;
pub mod stream;
pub mod worker;
