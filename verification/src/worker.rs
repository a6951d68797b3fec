//! The supervisor of the download worker.
//!
//! A worker starts `Uninitialized`. Its first poll announces it with
//! [`DownloaderEvent::Initialized`] and makes it `Running`; from then on it
//! registers every download it is sent with its multiplexer, and every poll
//! forwards the multiplexer's next event. It never stops.
//!
//! The caller owns the two channels. It creates the inbox with room for
//! [`COMMAND_CAPACITY`] messages and the outbox with room for
//! [`EVENT_CAPACITY`] events, sends on both without waiting, and drops what
//! does not fit.

use crate::item::{Draw, Progress};
use crate::multiplexer::{
    all_live, earliest, is_earliest, lemma_earliest_exists, registered, served, Machine,
    Multiplexer,
};
use vstd::prelude::*;

verus! {

/// How many submitted downloads the inbox holds before it drops new ones.
pub const COMMAND_CAPACITY: usize = 32;

/// How many events the outbox holds before it drops new ones.
pub const EVENT_CAPACITY: usize = 128;

/// What the worker is sent.
#[derive(Debug, PartialEq, Eq)]
pub enum DownloaderMessage<I> {
    /// Start the download with this identifier and this descriptor.
    Download(I, String),
}

/// What the worker reports.
#[derive(Debug, PartialEq, Eq)]
pub enum DownloaderEvent<I> {
    /// The worker is up and accepts downloads. Reported once, first.
    Initialized,
    /// An event of the download with this identifier.
    Progress(I, Progress),
}

/// The two states of the supervisor.
#[derive(Debug, Clone, Copy, PartialEq, Eq, Structural)]
pub enum Phase {
    Uninitialized,
    Running,
}

/// The supervisor: its phase and the multiplexer that it owns.
pub struct Worker<I> {
    phase: Phase,
    downloads: Multiplexer<I>,
}

/// The event of the multiplexer as the worker reports it.
pub open spec fn reported<I>(event: Option<(I, Progress)>) -> Option<DownloaderEvent<I>> {
    match event {
        Some((id, progress)) => Some(DownloaderEvent::Progress(id, progress)),
        None => None,
    }
}

/// The live set after the worker has been sent `message` at time `now`: a
/// running worker registers the download, a worker that is not yet running
/// drops the message.
pub open spec fn received<I>(
    phase: Phase,
    machines: Seq<Machine<I>>,
    message: DownloaderMessage<I>,
    now: u64,
    draw: Draw,
) -> Seq<Machine<I>> {
    match (phase, message) {
        (Phase::Running, DownloaderMessage::Download(id, descriptor)) => registered(
            machines,
            id,
            descriptor,
            now,
            draw,
        ),
        (Phase::Uninitialized, _) => machines,
    }
}

/// The live set after a poll at time `now`, and the event that the poll
/// reports: the announcement if the worker was not yet running, else
/// whatever the multiplexer hands out.
pub open spec fn polled<I>(phase: Phase, machines: Seq<Machine<I>>, now: u64, draw: Draw) -> (
    Seq<Machine<I>>,
    Option<DownloaderEvent<I>>,
) {
    match phase {
        Phase::Uninitialized => (machines, Some(DownloaderEvent::Initialized)),
        Phase::Running => (served(machines, now, draw).0, reported(served(machines, now, draw).1)),
    }
}

impl<I: Copy> Worker<I> {
    /// The phase that the worker is in.
    pub closed spec fn phase(&self) -> Phase {
        self.phase
    }

    /// The live set of the worker's multiplexer.
    pub closed spec fn machines(&self) -> Seq<Machine<I>> {
        self.downloads@
    }

    /// The invariant of the worker: every machine of its multiplexer is
    /// live. `new` establishes it and every method keeps it.
    pub open spec fn wf(&self) -> bool {
        all_live(self.machines())
    }

    /// A worker that has not yet announced itself.
    pub fn new() -> (worker: Self)
        ensures
            worker.wf(),
            worker.phase() == Phase::Uninitialized,
            worker.machines() == Seq::<Machine<I>>::empty(),
    {
        Worker { phase: Phase::Uninitialized, downloads: Multiplexer::new() }
    }

    /// Whether the worker has announced itself.
    pub fn is_running(&self) -> (running: bool)
        ensures
            running == (self.phase() == Phase::Running),
    {
        match self.phase {
            Phase::Running => true,
            Phase::Uninitialized => false,
        }
    }

    /// The number of downloads that have not finished.
    pub fn live(&self) -> (count: usize)
        ensures
            count == self.machines().len(),
    {
        self.downloads.len()
    }

    /// Takes in a message at time `now`; `draw` holds the random values of
    /// the first step of the download that the message starts. See
    /// [`received`].
    pub fn receive_with(&mut self, message: DownloaderMessage<I>, now: u64, draw: Draw)
        requires
            old(self).wf(),
            draw.in_range(),
        ensures
            final(self).wf(),
            final(self).phase() == old(self).phase(),
            final(self).machines() == received(
                old(self).phase(),
                old(self).machines(),
                message,
                now,
                draw,
            ),
    {
        match self.phase {
            Phase::Running => match message {
                DownloaderMessage::Download(id, descriptor) => {
                    self.downloads.register_with(id, descriptor, now, draw);
                },
            },
            Phase::Uninitialized => {},
        }
    }

    /// Takes in a message at time `now`, drawing the random values that
    /// [`Worker::receive_with`] is handed.
    pub fn receive(&mut self, message: DownloaderMessage<I>, now: u64)
        requires
            old(self).wf(),
        ensures
            final(self).wf(),
            final(self).phase() == old(self).phase(),
            exists|draw: Draw|
                draw.in_range() && final(self).machines() == #[trigger] received(
                    old(self).phase(),
                    old(self).machines(),
                    message,
                    now,
                    draw,
                ),
    {
        match self.phase {
            Phase::Running => match message {
                DownloaderMessage::Download(id, descriptor) => {
                    self.downloads.register(id, descriptor, now);
                    proof {
                        let draw = choose|draw: Draw|
                            draw.in_range() && self.machines() == #[trigger] registered(
                                old(self).machines(),
                                id,
                                descriptor,
                                now,
                                draw,
                            );
                        assert(self.machines() == received(
                            old(self).phase(),
                            old(self).machines(),
                            message,
                            now,
                            draw,
                        ));
                    }
                },
            },
            Phase::Uninitialized => {
                proof {
                    let draw = Draw { total: 10_000, chunk_size: 1_000, delay_ms: 100 };
                    assert(self.machines() == received(
                        old(self).phase(),
                        old(self).machines(),
                        message,
                        now,
                        draw,
                    ));
                }
            },
        }
    }

    /// Reports the next event at time `now`, if one is due; `draw` holds the
    /// random values of the step that the served download takes next. See
    /// [`polled`]. Whatever the phase before, the worker is running after.
    pub fn poll_with(&mut self, now: u64, draw: Draw) -> (event: Option<DownloaderEvent<I>>)
        requires
            old(self).wf(),
            draw.in_range(),
        ensures
            final(self).wf(),
            final(self).phase() == Phase::Running,
            old(self).machines().len() > 0 ==> is_earliest(
                old(self).machines(),
                earliest(old(self).machines()),
            ),
            (final(self).machines(), event) == polled(
                old(self).phase(),
                old(self).machines(),
                now,
                draw,
            ),
    {
        proof {
            if self.machines().len() > 0 {
                lemma_earliest_exists(self.machines());
            }
        }
        match self.phase {
            Phase::Uninitialized => {
                self.phase = Phase::Running;
                Some(DownloaderEvent::Initialized)
            },
            Phase::Running => match self.downloads.next_with(now, draw) {
                Some((id, progress)) => Some(DownloaderEvent::Progress(id, progress)),
                None => None,
            },
        }
    }

    /// Reports the next event at time `now`, if one is due, drawing the
    /// random values that [`Worker::poll_with`] is handed.
    pub fn poll(&mut self, now: u64) -> (event: Option<DownloaderEvent<I>>)
        requires
            old(self).wf(),
        ensures
            final(self).wf(),
            final(self).phase() == Phase::Running,
            old(self).machines().len() > 0 ==> is_earliest(
                old(self).machines(),
                earliest(old(self).machines()),
            ),
            exists|draw: Draw|
                draw.in_range() && (final(self).machines(), event) == #[trigger] polled(
                    old(self).phase(),
                    old(self).machines(),
                    now,
                    draw,
                ),
    {
        proof {
            if self.machines().len() > 0 {
                lemma_earliest_exists(self.machines());
            }
        }
        match self.phase {
            Phase::Uninitialized => {
                self.phase = Phase::Running;
                proof {
                    let draw = Draw { total: 10_000, chunk_size: 1_000, delay_ms: 100 };
                    assert((self.machines(), Some(DownloaderEvent::<I>::Initialized)) == polled(
                        old(self).phase(),
                        old(self).machines(),
                        now,
                        draw,
                    ));
                }
                Some(DownloaderEvent::Initialized)
            },
            Phase::Running => {
                let handed = self.downloads.next(now);
                proof {
                    let draw = choose|draw: Draw|
                        draw.in_range() && (self.machines(), handed) == #[trigger] served(
                            old(self).machines(),
                            now,
                            draw,
                        );
                    assert((self.machines(), reported(handed)) == polled(
                        old(self).phase(),
                        old(self).machines(),
                        now,
                        draw,
                    ));
                }
                match handed {
                    Some((id, progress)) => Some(DownloaderEvent::Progress(id, progress)),
                    None => None,
                }
            },
        }
    }

    /// The time at which the next poll has something to report: at once
    /// (time zero) while the worker has not announced itself, else the
    /// multiplexer's next deadline. `None` when the worker is running and
    /// no download is live.
    pub fn next_deadline(&self) -> (due: Option<u64>)
        ensures
            self.phase() == Phase::Uninitialized ==> due == Some(0u64),
            self.phase() == Phase::Running ==> match due {
                Some(time) => self.machines().len() > 0 && time == self.machines()[earliest(
                    self.machines(),
                )].ready_at,
                None => self.machines().len() == 0,
            },
    {
        match self.phase {
            Phase::Uninitialized => Some(0),
            Phase::Running => self.downloads.next_deadline(),
        }
    }
}

} // verus!
