//! Draining a readable capture.

use vstd::prelude::*;

use super::interface_table::CaptureEntry;
use super::keys::{CaptureKey, MONITOR_TAG};
use super::{DispatchState, PacketDispatcher};
use crate::capture::Capture;

verus! {

/// The most reads per readable event before yielding to the other captures. Frames that a capture
/// has buffered locally are read past this, since no wait reports them again.
pub const MAX_FRAMES_PER_EVENT: u32 = 64;

/// What a readable descriptor is for.
#[derive(Clone, Copy, PartialEq, Eq, Structural, Debug)]
pub enum Ready {
    /// The interface monitor has events.
    Monitor,
    /// A capture has frames.
    Capture(CaptureKey),
}

/// What the descriptor tagged `user_data` is for.
pub fn on_readable(user_data: u64) -> (r: Ready)
    ensures
        r == if user_data == MONITOR_TAG {
            Ready::Monitor
        } else {
            Ready::Capture(CaptureKey::unpacked(user_data))
        },
{
    if user_data == MONITOR_TAG {
        Ready::Monitor
    } else {
        Ready::Capture(CaptureKey::from_u64(user_data))
    }
}

/// How a drain begins.
#[derive(Debug)]
pub enum DrainStart<S> {
    /// The capture, taken out of the table.
    Draining(Capture<S>),
    /// The capture is out for a drain already.
    AlreadyDraining,
    /// No capture has the key.
    OutOfRange,
}

/// One read of a drained capture.
#[derive(Clone, Copy, PartialEq, Eq, Structural, Debug)]
pub enum DrainRead {
    Frame,
    /// A frame too large for the buffer, dropped.
    Oversized,
    WouldBlock,
    /// The read failed, with the system's error number where it gave one.
    Failed(Option<i32>),
}

/// What to do after a read.
#[derive(Clone, Copy, PartialEq, Eq, Structural, Debug)]
pub enum DrainStep {
    /// Route the frame, then go on.
    Route,
    /// Go on.
    Continue,
    /// End the drain.
    Stop,
}

impl DrainRead {
    /// What to do after the read.
    pub open spec fn step(self) -> DrainStep {
        match self {
            DrainRead::Frame => DrainStep::Route,
            DrainRead::Oversized => DrainStep::Continue,
            DrainRead::WouldBlock => DrainStep::Stop,
            DrainRead::Failed(_) => DrainStep::Stop,
        }
    }
}

/// How far a drain has come.
#[derive(Clone, Copy, PartialEq, Eq, Structural, Debug)]
pub struct Drain {
    /// The frames read so far, dropped ones included.
    pub drained: u32,
}

impl Drain {
    /// Nothing read yet.
    pub fn start() -> (r: Self)
        ensures
            r == (Drain { drained: 0 }),
    {
        Drain { drained: 0 }
    }

    /// Whether to read again.
    pub open spec fn wants_more_spec(self, has_buffered: bool) -> bool {
        self.drained < MAX_FRAMES_PER_EVENT || has_buffered
    }

    /// Whether to read again, given whether the capture has frames buffered locally.
    pub fn wants_more(&self, has_buffered: bool) -> (r: bool)
        ensures
            r == self.wants_more_spec(has_buffered),
    {
        self.drained < MAX_FRAMES_PER_EVENT || has_buffered
    }

    /// The drain after a read. Only a frame counts against the budget, a dropped one like any other.
    pub open spec fn after(self, read: DrainRead) -> Self {
        if read.step() is Stop {
            self
        } else {
            Drain { drained: (self.drained + 1) as u32 }
        }
    }

    /// Where a drain stands after these reads.
    pub open spec fn run(reads: Seq<DrainRead>) -> Self
        decreases reads.len(),
    {
        if reads.len() == 0 {
            Drain { drained: 0 }
        } else {
            Drain::run(reads.drop_last()).after(reads.last())
        }
    }
}

/// Whether a drain may make these reads on a capture without local buffering: it wanted more before
/// each, and none but the last ended it.
pub open spec fn is_drain(reads: Seq<DrainRead>) -> bool
    decreases reads.len(),
{
    reads.len() > 0 ==> {
        &&& is_drain(reads.drop_last())
        &&& Drain::run(reads.drop_last()).wants_more_spec(false)
        &&& reads.len() > 1 ==> !(reads[reads.len() - 2].step() is Stop)
    }
}

impl<S, H> PacketDispatcher<S, H> {
    /// Take the capture `ingress` out for its drain, so that a handler can send on the others. The
    /// interface behind it stays known.
    pub fn begin_drain(&mut self, ingress: CaptureKey) -> (r: DrainStart<S>)
        requires
            old(self).wf(),
        ensures
            final(self).wf(),
            if ingress.0 >= old(self)@.rows.len() {
                r is OutOfRange && final(self)@ == old(self)@
            } else {
                let row = old(self)@.rows[ingress.0 as int];
                match row.capture {
                    Some(capture) => {
                        &&& r == DrainStart::Draining(capture)
                        &&& final(self)@ == (DispatchState {
                            rows: old(self)@.rows.update(
                                ingress.0 as int,
                                CaptureEntry { capture: None, ..row },
                            ),
                            ..old(self)@
                        })
                    },
                    None => r is AlreadyDraining && final(self)@ == old(self)@,
                }
            },
    {
        match self.table.take(ingress) {
            Some(capture) => DrainStart::Draining(capture),
            None => {
                assert(self@.rows =~= old(self)@.rows);
                if self.table.contains(ingress) {
                    DrainStart::AlreadyDraining
                } else {
                    DrainStart::OutOfRange
                }
            },
        }
    }

    /// Take in one read. A failure that says the interface is gone pulls the reconcile pass forward to
    /// `now`; it must not run mid-drain, with the capture out of its slot. Any other failure says
    /// nothing about the interface.
    pub fn drain_read(&mut self, drain: &mut Drain, read: DrainRead, now: u64) -> (r: DrainStep)
        requires
            old(self).wf(),
            old(drain).drained < u32::MAX,
        ensures
            final(self).wf(),
            r == read.step(),
            *final(drain) == old(drain).after(read),
            final(self)@ == if read matches DrainRead::Failed(errno)
                && old(self)@.errnos.lost_interface_spec(errno) {
                DispatchState { next_reconcile: now, ..old(self)@ }
            } else {
                old(self)@
            },
    {
        match read {
            DrainRead::Frame => {
                drain.drained = drain.drained + 1;
                DrainStep::Route
            },
            DrainRead::Oversized => {
                drain.drained = drain.drained + 1;
                DrainStep::Continue
            },
            DrainRead::WouldBlock => DrainStep::Stop,
            DrainRead::Failed(errno) => {
                if self.errnos.lost_interface(errno) {
                    self.next_reconcile = now;
                }
                DrainStep::Stop
            },
        }
    }

    /// End a drain: count the frames the capture dropped for their size, and put it back. The result
    /// says whether its slot is there; without one the capture is dropped.
    pub fn finish_drain(&mut self, ingress: CaptureKey, capture: Capture<S>) -> (r: bool)
        requires
            old(self).wf(),
            capture.oversized > 0 ==> ingress.0 < old(self)@.rows.len(),
        ensures
            final(self).wf(),
            r == (ingress.0 < old(self)@.rows.len()),
            if r {
                let i = ingress.0 as int;
                let was = old(self)@.rows[i];
                let row = final(self)@.rows[i];
                &&& final(self)@ == (DispatchState {
                    rows: old(self)@.rows.update(i, row),
                    ..old(self)@
                })
                &&& row == (CaptureEntry {
                    capture: Some(Capture { oversized: 0, ..capture }),
                    counters: row.counters,
                    ..was
                })
                &&& if capture.oversized > 0 {
                    was.counters.after_oversized(row.counters, capture.oversized)
                } else {
                    row.counters == was.counters
                }
            } else {
                final(self)@ == old(self)@
            },
    {
        let mut capture = capture;
        let oversized: u64 = capture.take_oversized();
        if oversized > 0 {
            self.table.record_oversized(ingress, oversized);
        }
        let restored = self.table.restore(ingress, capture);
        assert(restored ==> self@.rows =~= old(self)@.rows.update(
            ingress.0 as int,
            self@.rows[ingress.0 as int],
        ));
        restored
    }
}

proof fn lemma_run(reads: Seq<DrainRead>)
    requires
        is_drain(reads),
    ensures
        reads.len() > 0 && reads.last().step() is Stop ==> Drain::run(reads).drained == reads.len()
            - 1,
        reads.len() == 0 || !(reads.last().step() is Stop) ==> Drain::run(reads).drained
            == reads.len(),
        Drain::run(reads).drained <= MAX_FRAMES_PER_EVENT,
    decreases reads.len(),
{
    if reads.len() > 0 {
        let before = reads.drop_last();
        lemma_run(before);
        if reads.len() > 1 {
            assert(before.last() == reads[reads.len() - 2]);
        }
    }
}

/// One readable event costs a bounded number of reads on a capture without local buffering, so a
/// flooded interface cannot starve the others. A frame dropped for its size costs a read like any
/// other.
pub proof fn law_a_drain_is_bounded(reads: Seq<DrainRead>)
    requires
        is_drain(reads),
    ensures
        reads.len() <= MAX_FRAMES_PER_EVENT,
{
    lemma_run(reads);
    if reads.len() > 0 {
        let before = reads.drop_last();
        lemma_run(before);
        if reads.len() > 1 {
            assert(before.last() == reads[reads.len() - 2]);
        }
    }
}

/// While a capture is drained its key addresses no capture, so that a send on it drops the frame, but
/// the interface behind it still resolves, and every other capture is where it was.
pub proof fn law_a_drained_capture_still_resolves<S, H>(
    before: DispatchState<S, H>,
    during: DispatchState<S, H>,
    ingress: CaptureKey,
    other: CaptureKey,
)
    requires
        ingress.0 < before.rows.len(),
        during == (DispatchState {
            rows: before.rows.update(
                ingress.0 as int,
                CaptureEntry { capture: None, ..before.rows[ingress.0 as int] },
            ),
            ..before
        }),
        other != ingress,
    ensures
        during.capture_at(ingress) is None,
        during.addrs_behind(ingress) == before.addrs_behind(ingress),
        during.capture_at(other) == before.capture_at(other),
        during.addrs_behind(other) == before.addrs_behind(other),
{
}

/// A frame read is routed; one too large is passed over; and the drain ends exactly where a read gives no
/// frame at all, having blocked or failed.
pub proof fn law_a_drain_ends_where_a_read_gives_no_frame(read: DrainRead)
    ensures
        read.step() is Route <==> read is Frame,
        read.step() is Continue <==> read is Oversized,
        read.step() is Stop <==> read is WouldBlock || read is Failed,
{
}

/// A drain reads on while it has read fewer than 64 frames, and beyond that only what the capture has
/// buffered locally.
pub proof fn law_a_drain_yields_after_its_budget(drain: Drain, has_buffered: bool)
    ensures
        drain.drained < 64 ==> drain.wants_more_spec(has_buffered),
        drain.drained >= 64 ==> (drain.wants_more_spec(has_buffered) <==> has_buffered),
{
}

/// Every frame read counts against the budget by one, a dropped one like any other, and nothing else does.
pub proof fn law_every_frame_read_counts(drain: Drain, read: DrainRead)
    requires
        drain.drained < u32::MAX,
    ensures
        read is Frame || read is Oversized ==> drain.after(read).drained == drain.drained + 1,
        read is WouldBlock || read is Failed ==> drain.after(read).drained == drain.drained,
{
}

}
