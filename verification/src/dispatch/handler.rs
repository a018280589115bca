//! What a reflector implements to take part in dispatch.

use vstd::prelude::*;

use super::keys::CaptureKey;
use super::{DispatchState, PacketDispatcher};
use crate::counters::Outcome;
use crate::net::Packet;

verus! {

/// A reflector: re-emits matching packets on its egress captures, and may register further work
/// through the dispatcher or the event loop `R`. It is called only after its registration's filter
/// matched. What it does with the dispatcher leaves it as [`DispatchState::left_by_a_call`] says.
///
/// `took`, `kept_time` and `heeded` say what one call of each method did: what became of the handler,
/// how it left the dispatcher, and what it reported. A reflector may define them; one that does not says
/// no more of its calls than every reflector does. One that has its own timer or heeds changes says what it
/// does then in the `ensures` of its own methods: the dispatcher's contracts tie what each call left to the
/// method that was called.
pub trait PacketHandler<S, R>: Sized {
    /// Whether one [`on_packet`](Self::on_packet) of `before`, called in `state`, may end as `after` in
    /// `left`, with this outcome.
    open spec fn took(
        before: Self,
        packet: Packet,
        state: DispatchState<S, Self>,
        after: Self,
        left: DispatchState<S, Self>,
        outcome: Outcome,
    ) -> bool {
        state.left_by_a_call(left)
    }

    /// Whether one [`on_deadline`](Self::on_deadline) of `before`, called in `state`, may end as `after`
    /// in `left`.
    open spec fn kept_time(
        before: Self,
        now: u64,
        state: DispatchState<S, Self>,
        after: Self,
        left: DispatchState<S, Self>,
    ) -> bool {
        state.left_by_a_call(left)
    }

    /// Whether one [`on_iface_change`](Self::on_iface_change) of `before`, called in `state`, may end as
    /// `after` in `left`.
    open spec fn heeded(
        before: Self,
        captures: Vec<CaptureKey>,
        state: DispatchState<S, Self>,
        after: Self,
        left: DispatchState<S, Self>,
    ) -> bool {
        state.left_by_a_call(left)
    }

    /// Take a packet.
    fn on_packet(
        &mut self,
        packet: &Packet,
        dispatcher: &mut PacketDispatcher<S, Self>,
        reactor: &mut R,
    ) -> (r: Outcome)
        requires
            old(dispatcher).wf(),
        ensures
            final(dispatcher).wf(),
            old(dispatcher)@.left_by_a_call(final(dispatcher)@),
            Self::took(
                *old(self),
                *packet,
                old(dispatcher)@,
                *final(self),
                final(dispatcher)@,
                r,
            ),
    ;

    /// When [`on_deadline`](Self::on_deadline) is wanted next, if at all. A handler that does not say
    /// otherwise keeps no timer.
    fn next_deadline(&self) -> (r: Option<u64>)
        default_ensures
            r is None,
    {
        None
    }

    /// `now` has reached this handler's [`next_deadline`](Self::next_deadline). A handler that does not
    /// say otherwise does nothing.
    fn on_deadline(
        &mut self,
        now: u64,
        dispatcher: &mut PacketDispatcher<S, Self>,
        reactor: &mut R,
    )
        requires
            old(dispatcher).wf(),
        ensures
            final(dispatcher).wf(),
            old(dispatcher)@.left_by_a_call(final(dispatcher)@),
            (*final(self) == *old(self) && final(dispatcher)@ == old(dispatcher)@)
                || Self::kept_time(
                *old(self),
                now,
                old(dispatcher)@,
                *final(self),
                final(dispatcher)@,
            ),
        default_ensures
            *final(self) == *old(self),
            final(dispatcher)@ == old(dispatcher)@,
            *final(reactor) == *old(reactor),
    {
    }

    /// One of `captures` was re-bound to a recreated interface, or an address behind it moved, so
    /// state pinned to it may be stale. The dispatcher is repaired already. A handler that does not say
    /// otherwise does nothing.
    fn on_iface_change(
        &mut self,
        captures: &Vec<CaptureKey>,
        dispatcher: &mut PacketDispatcher<S, Self>,
        reactor: &mut R,
    )
        requires
            old(dispatcher).wf(),
        ensures
            final(dispatcher).wf(),
            old(dispatcher)@.left_by_a_call(final(dispatcher)@),
            (*final(self) == *old(self) && final(dispatcher)@ == old(dispatcher)@) || Self::heeded(
                *old(self),
                *captures,
                old(dispatcher)@,
                *final(self),
                final(dispatcher)@,
            ),
        default_ensures
            *final(self) == *old(self),
            final(dispatcher)@ == old(dispatcher)@,
            *final(reactor) == *old(reactor),
    {
    }
}

}
